use pith::alphabet::Alphabet;
use pith::identity::PrivilegeTier;
use pith::permissions::{PermissionEngine, PermissionResult, PermissionRule, Verb};
use pith::trie::{Trie, WalkEntry};

fn alphabet_of(names: &[&str]) -> Alphabet {
    let names: Vec<String> = names.iter().map(|s| s.to_string()).collect();
    Alphabet::from_names(&names)
}

fn trie_of(files: &[&str], dirs: &[&str], alphabet: &Alphabet) -> Trie {
    let mut entries: Vec<WalkEntry> = Vec::new();
    for d in dirs {
        entries.push(WalkEntry { relative: d.to_string(), is_file: false, mtime: None });
    }
    for f in files {
        entries.push(WalkEntry { relative: f.to_string(), is_file: true, mtime: None });
    }
    Trie::build_from_entries(&entries, alphabet)
}

fn setup_permission_fs() -> Trie {
    let alphabet = alphabet_of(&["$", "-", "!", "#", "§", "~", "€", "_"]);
    let files = [
        "hard/reserved/$",
        "hard/reserved/-",
        "hard/reserved/!",
        "hard/reserved/#",
        "hard/reserved/§",
        "hard/reserved/~",
        "hard/reserved/€",
        "hard/reserved/_",
        "hard/groups/system/§read/_",
        "hard/groups/system/§write/_",
        "hard/groups/system/§execute/_",
        "hard/groups/developers/§read/databases",
        "hard/groups/developers/§write/jobs",
        "hard/groups/developers/§execute/workers",
        "hard/groups/guests/§read/databases",
        "hard/groups/guests/§deny/hard",
        "hard/identities/001/-expected/type/identity",
        "hard/identities/001/-group/system",
        "hard/identities/600/-expected/type/identity",
        "hard/identities/600/-group/developers",
        "hard/identities/601/-expected/type/identity",
        "hard/identities/601/-group/developers",
        "hard/identities/601/§own/databases/translations",
        "hard/identities/800/-expected/type/identity",
        "hard/identities/800/-group/guests",
        "hard/identities/700/-expected/type/identity",
    ];
    trie_of(&files, &[], &alphabet)
}

#[test]
fn test_load_groups() {
    let trie = setup_permission_fs();
    let engine = PermissionEngine::load(&trie);

    assert_eq!(engine.group_count(), 3);
    assert_eq!(engine.get_group("system").unwrap().len(), 3);
    assert_eq!(engine.get_group("developers").unwrap().len(), 3);
    assert_eq!(engine.get_group("guests").unwrap().len(), 2);
}

#[test]
fn test_load_identities() {
    let trie = setup_permission_fs();
    let engine = PermissionEngine::load(&trie);

    let id001 = engine.get_identity(1).unwrap();
    assert_eq!(id001.identity.groups, vec!["system"]);
    assert_eq!(id001.identity.tier, PrivilegeTier::Omni);
    assert_eq!(id001.rules.len(), 3);

    let id600 = engine.get_identity(600).unwrap();
    assert_eq!(id600.identity.groups, vec!["developers"]);
    assert_eq!(id600.identity.tier, PrivilegeTier::User);
    assert_eq!(id600.rules.len(), 3);

    let id601 = engine.get_identity(601).unwrap();
    assert!(id601.rules.len() >= 4);
}

#[test]
fn test_system_group_allows_everything() {
    let trie = setup_permission_fs();
    let engine = PermissionEngine::load(&trie);
    assert!(engine.check(1, Verb::Read, &["databases", "colors", "blue"]).is_allowed());
    assert!(engine.check(1, Verb::Write, &["jobs", "1"]).is_allowed());
    assert!(engine.check(1, Verb::Execute, &["workers", "1"]).is_allowed());
}

#[test]
fn test_developer_scoped_permissions() {
    let trie = setup_permission_fs();
    let engine = PermissionEngine::load(&trie);
    assert!(engine.check(600, Verb::Read, &["databases", "colors", "blue"]).is_allowed());
    assert!(engine.check(600, Verb::Write, &["jobs", "1"]).is_allowed());
    assert!(engine.check(600, Verb::Execute, &["workers", "1"]).is_allowed());
    assert!(engine.check(600, Verb::Write, &["hard", "reserved"]).is_denied());
    assert!(engine.check(600, Verb::Read, &["events", "!boot"]).is_denied());
}

#[test]
fn test_deny_overrides_grant() {
    let trie = setup_permission_fs();
    let engine = PermissionEngine::load(&trie);
    assert!(engine.check(800, Verb::Read, &["databases", "colors"]).is_allowed());
    assert!(engine.check(800, Verb::Read, &["hard", "identities"]).is_denied());
    assert!(engine.check(800, Verb::Write, &["jobs", "1"]).is_denied());
}

#[test]
fn test_own_implies_all_verbs() {
    let trie = setup_permission_fs();
    let engine = PermissionEngine::load(&trie);
    assert!(engine.check(601, Verb::Read, &["databases", "translations", "english"]).is_allowed());
    assert!(engine.check(601, Verb::Write, &["databases", "translations", "french"]).is_allowed());
    assert!(engine.check(601, Verb::Execute, &["databases", "translations"]).is_allowed());
}

#[test]
fn test_default_deny() {
    let trie = setup_permission_fs();
    let engine = PermissionEngine::load(&trie);
    assert!(engine.check(700, Verb::Read, &["databases"]).is_denied());
    assert!(engine.check(700, Verb::Write, &["jobs"]).is_denied());
}

#[test]
fn test_unknown_identity_denied() {
    let trie = setup_permission_fs();
    let engine = PermissionEngine::load(&trie);
    assert!(engine.check(999, Verb::Read, &["databases"]).is_denied());
}

#[test]
fn test_prefix_matching() {
    let trie = setup_permission_fs();
    let engine = PermissionEngine::load(&trie);
    assert!(engine.check(600, Verb::Read, &["databases", "colors", "blue", "psychology"]).is_allowed());
    assert!(engine.check(600, Verb::Read, &["pointers", "unicodes"]).is_denied());
}

#[test]
fn test_rule_matches_wildcard() {
    let rule = PermissionRule { verb: Verb::Read, target: vec!["_".to_string()] };
    assert!(rule.matches(&["anything"]));
    assert!(rule.matches(&["deep", "nested", "path"]));
    assert!(rule.matches(&[]));
}

#[test]
fn test_rule_matches_prefix() {
    let rule = PermissionRule { verb: Verb::Write, target: vec!["jobs".to_string()] };
    assert!(rule.matches(&["jobs"]));
    assert!(rule.matches(&["jobs", "1"]));
    assert!(rule.matches(&["jobs", "1", "-state", "pending"]));
    assert!(!rule.matches(&["workers"]));
    assert!(!rule.matches(&[]));
}

#[test]
fn test_rule_matches_deep_prefix() {
    let rule = PermissionRule { verb: Verb::Write, target: vec!["hard".to_string(), "groups".to_string()] };
    assert!(rule.matches(&["hard", "groups"]));
    assert!(rule.matches(&["hard", "groups", "admin"]));
    assert!(!rule.matches(&["hard", "identities"]));
    assert!(!rule.matches(&["hard"]));
}

#[test]
fn reasons_name_the_decision() {
    let trie = setup_permission_fs();
    let engine = PermissionEngine::load(&trie);
    assert_eq!(
        engine.check(800, Verb::Read, &["hard", "identities"]),
        PermissionResult::Deny { reason: "explicit §deny matching hard/identities".to_string() }
    );
    assert_eq!(
        engine.check(601, Verb::Write, &["databases", "translations"]),
        PermissionResult::Allow { reason: "§own matching databases/translations".to_string() }
    );
    assert_eq!(
        engine.check(600, Verb::Write, &["jobs", "1"]),
        PermissionResult::Allow { reason: "§Write matching jobs/1".to_string() }
    );
    assert_eq!(
        engine.check(700, Verb::Read, &["databases"]),
        PermissionResult::Deny { reason: "no matching grant for Read on databases".to_string() }
    );
    assert_eq!(
        engine.check(999, Verb::Read, &["databases"]),
        PermissionResult::Deny { reason: "identity 999 not found".to_string() }
    );
    assert_eq!(
        engine.check(0, Verb::Read, &["databases"]),
        PermissionResult::Deny { reason: "identity 0 not found".to_string() }
    );
}

#[test]
fn high_tier_identity_without_rules_is_denied() {
    let alphabet = alphabet_of(&["-", "§", "€"]);
    let trie = trie_of(&["hard/identities/100/-expected/type/identity"], &["hard/groups"], &alphabet);
    let engine = PermissionEngine::load(&trie);
    assert_eq!(
        engine.check(100, Verb::Write, &["hard"]),
        PermissionResult::Deny { reason: "no matching grant for Write on hard".to_string() }
    );
    assert_eq!(engine.identity_count(), 1);
    assert_eq!(engine.group_count(), 0);
}

#[test]
fn empty_verb_door_is_a_wildcard_and_unknown_verbs_are_skipped() {
    let alphabet = alphabet_of(&["-", "§", "€"]);
    let trie = trie_of(
        &["hard/identities/650/-expected/type/identity"],
        &["hard/identities/650/§read", "hard/identities/650/§fly/high"],
        &alphabet,
    );
    let engine = PermissionEngine::load(&trie);
    let perms = engine.get_identity(650).unwrap();
    assert_eq!(perms.rules.len(), 1);
    assert_eq!(perms.rules[0], PermissionRule { verb: Verb::Read, target: vec!["_".to_string()] });
    assert!(engine.check(650, Verb::Read, &["anything", "at", "all"]).is_allowed());
    assert!(engine.check(650, Verb::Write, &["anything"]).is_denied());
}

#[test]
fn non_numeric_identities_are_skipped() {
    let alphabet = alphabet_of(&["-", "§", "€"]);
    let trie = trie_of(&["hard/identities/make.sh", "hard/identities/600/-group/developers"], &[], &alphabet);
    let engine = PermissionEngine::load(&trie);
    assert_eq!(engine.identity_count(), 1);
    assert!(engine.get_identity(600).is_some());
    assert!(engine.get_group("developers").is_none());
}

#[test]
fn verbs_parse_and_satisfy() {
    assert_eq!(Verb::from_str("read"), Some(Verb::Read));
    assert_eq!(Verb::from_str("deny"), Some(Verb::Deny));
    assert_eq!(Verb::from_str("Read"), None);
    assert!(Verb::Read.satisfied_by(Verb::Own));
    assert!(Verb::Write.satisfied_by(Verb::Write));
    assert!(!Verb::Write.satisfied_by(Verb::Read));
}
