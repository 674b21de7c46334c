use std::sync::Arc;

use pith::alphabet::Alphabet;
use pith::api::{authenticate_against, find_password_hash, handle_authenticate, path_segments, plan_create_identity, write_effect, NewIdentity};
use pith::auth::{hash_password, hash_to_filename};
use pith::boot::{has_admin_with_password, provision_admin_paths};
use pith::config::PithConfig;
use pith::effector::{begin_effect, join_path, settle_effect, Effect, Effector, PendingSet};
use pith::error::PithError;
use pith::identity::PrivilegeTier;
use pith::permissions::PermissionEngine;
use pith::session::{SessionContext, SessionManager};
use pith::subsystems::FsEventKind;
use pith::trie::{Trie, WalkEntry};
use pith::watcher::{admit_event, classify_raw, screen_event, RawEventKind};

fn alphabet_of(names: &[&str]) -> Alphabet {
    let names: Vec<String> = names.iter().map(|s| s.to_string()).collect();
    Alphabet::from_names(&names)
}

fn trie_of(files: &[String], alphabet: &Alphabet) -> Trie {
    let entries: Vec<WalkEntry> =
        files.iter().map(|f| WalkEntry { relative: f.clone(), is_file: true, mtime: None }).collect();
    Trie::build_from_entries(&entries, alphabet)
}

#[test]
fn pending_set_holds_each_path_once() {
    let mut set = PendingSet::new();
    assert!(!set.contains("/a"));
    set.insert("/a");
    set.insert("/a");
    set.insert("/b");
    assert!(set.contains("/a"));
    assert!(set.remove("/a"));
    assert!(!set.contains("/a"));
    assert!(!set.remove("/a"));
    assert!(set.contains("/b"));
}

#[test]
fn test_pending_ops_tracking() {
    let effector = Effector::new("/root/fs".to_string());
    let full = effector.resolve_path("events/!boot");
    assert_eq!(full, "/root/fs/events/!boot");
    let shared = effector.pending_ops();
    let mut pending = shared.lock().unwrap();
    assert!(!Effector::is_pending(&pending, &full));
    Effector::register_pending(&mut pending, &full);
    assert!(Effector::is_pending(&pending, &full));
    assert!(Effector::consume_pending(&mut pending, &full));
    assert!(!Effector::is_pending(&pending, &full));
    Effector::register_pending(&mut pending, "/x");
    assert!(pending.contains("/x"));
    Effector::unregister_pending(&mut pending, "/x");
    assert!(!Effector::is_pending(&pending, "/x"));
}

#[test]
fn effects_mark_their_paths_pending_and_a_failure_forgets_them() {
    let mut pending = PendingSet::new();
    let mv = Effect::Move { from: "jobs/1".to_string(), to: "jobs/2".to_string() };
    begin_effect(&mut pending, "/fs", &mv);
    assert!(pending.contains("/fs/jobs/1"));
    assert!(pending.contains("/fs/jobs/2"));
    settle_effect(&mut pending, "/fs", &mv, true);
    assert!(pending.contains("/fs/jobs/2"));
    settle_effect(&mut pending, "/fs", &mv, false);
    assert!(!pending.contains("/fs/jobs/1"));
    assert!(!pending.contains("/fs/jobs/2"));
}

#[test]
fn the_watcher_passes_over_the_engines_own_changes() {
    let mut pending = PendingSet::new();
    begin_effect(&mut pending, "/fs", &Effect::Touch { path: "events/!boot".to_string() });
    assert!(admit_event(&mut pending, RawEventKind::Create, "/fs/events/!boot", "/fs").is_none());
    assert!(!pending.contains("/fs/events/!boot"));
    let again = admit_event(&mut pending, RawEventKind::Create, "/fs/events/!boot", "/fs").unwrap();
    assert_eq!(again.relative_path, "events/!boot");
    assert!(admit_event(&mut pending, RawEventKind::Create, "/fs/events/.hidden", "/fs").is_none());
}

#[test]
fn paths_join_like_path_join() {
    assert_eq!(join_path("/root", "a/b"), "/root/a/b");
    assert_eq!(join_path("/root/", "a"), "/root/a");
    assert_eq!(join_path("/root", "/abs"), "/abs");
    assert_eq!(join_path("", "a"), "a");
    assert_eq!(join_path("/root", ""), "/root/");
}

#[test]
fn effect_paths() {
    assert_eq!(Effect::Move { from: "a".to_string(), to: "b".to_string() }.path(), "a");
    assert_eq!(Effect::TouchWithMtime { path: "s".to_string(), mtime: 3 }.path(), "s");
}

#[test]
fn raw_events_are_classified_and_screened() {
    assert_eq!(classify_raw(RawEventKind::Create), Some(FsEventKind::Assert));
    assert_eq!(classify_raw(RawEventKind::Modify), Some(FsEventKind::Assert));
    assert_eq!(classify_raw(RawEventKind::Remove), Some(FsEventKind::Retract));
    assert_eq!(classify_raw(RawEventKind::Rename), Some(FsEventKind::Transform));
    assert_eq!(classify_raw(RawEventKind::Other), None);

    let w = screen_event(RawEventKind::Create, "/fs/jobs/test_job", "/fs").unwrap();
    assert_eq!(w.kind, FsEventKind::Assert);
    assert_eq!(w.relative_path, "jobs/test_job");
    assert_eq!(w.absolute_path, "/fs/jobs/test_job");
}

#[test]
fn test_watcher_skips_dotfiles() {
    assert!(screen_event(RawEventKind::Create, "/fs/jobs/.gitkeep", "/fs").is_none());
    assert!(screen_event(RawEventKind::Create, "/elsewhere/jobs/x", "/fs").is_none());
    assert!(screen_event(RawEventKind::Other, "/fs/jobs/x", "/fs").is_none());
}

#[test]
fn request_paths_and_write_effects() {
    assert_eq!(path_segments("hard//types/"), vec!["hard".to_string(), "types".to_string()]);
    assert!(path_segments("").is_empty());
    assert_eq!(write_effect("touch", "events/!x", None), Ok(Effect::Touch { path: "events/!x".to_string() }));
    assert_eq!(write_effect("rm", "", None), Err("Path required for rm".to_string()));
    assert_eq!(write_effect("mv", "a", None), Err("args.to required for mv".to_string()));
    assert_eq!(
        write_effect("mv", "a", Some("b")),
        Ok(Effect::Move { from: "a".to_string(), to: "b".to_string() })
    );
    assert_eq!(write_effect("mkdir", "", None), Err("Path required for mkdir".to_string()));
    assert_eq!(write_effect("fly", "x", None), Err("Unknown operation: fly".to_string()));
}

/// The trie after the engine inserted each file (a filesystem walk would
/// skip the secret, whose name starts with a dot).
fn inserted(files: &[String], alphabet: &Alphabet) -> Trie {
    let mut trie = Trie { root: pith::trie::TrieNode::new(String::new(), pith::parser::NodeClass::Data(String::new()), false) };
    for f in files {
        let segs: Vec<String> = f.split('/').map(|s| s.to_string()).collect();
        trie.insert(&segs, true, alphabet);
    }
    trie
}

fn admin_fs(password: &str) -> (Trie, String) {
    let alphabet = alphabet_of(&["-", "§", "€", "_"]);
    // A hash whose base64 holds '/' would span two path segments, so take a
    // provisioning whose random salt and digest keep clear of it.
    let mut files = provision_admin_paths(password).unwrap();
    let mut tries = 0;
    while files[2]["hard/identities/001/-secret/".len()..].contains('/') && tries < 200 {
        files = provision_admin_paths(password).unwrap();
        tries += 1;
    }
    assert_eq!(files.len(), 7);
    assert_eq!(files[0], "hard/identities/001/-expected/type/identity");
    assert_eq!(files[6], "hard/identities/001/§own/_");
    let secret = files[2].clone();
    (inserted(&files, &alphabet), secret)
}

#[test]
fn a_walk_skips_the_dotted_secret() {
    let alphabet = alphabet_of(&["-", "§", "€", "_"]);
    let files = provision_admin_paths("pw").unwrap();
    let walked = trie_of(&files, &alphabet);
    assert!(!has_admin_with_password(&walked));
}

#[test]
fn admin_provisioning_and_detection() {
    let alphabet = alphabet_of(&["-", "§", "€", "_"]);
    let empty = trie_of(&["hard/identities/600/-secret/x".to_string()], &alphabet);
    assert!(!has_admin_with_password(&empty));
    let (trie, secret) = admin_fs("correct horse");
    assert!(secret.starts_with("hard/identities/001/-secret/.argon2id.v=19."));
    assert!(has_admin_with_password(&trie));
    let engine = PermissionEngine::load(&trie);
    assert!(engine.check(1, pith::permissions::Verb::Write, &["hard"]).is_allowed());
}

#[test]
fn authenticate_checks_the_stored_hash() {
    let (trie, _) = admin_fs("correct horse");
    let (id, phc) = find_password_hash("001", &trie).unwrap();
    assert_eq!(id, 1);
    assert!(phc.starts_with("$argon2id$v=19$"));
    assert_eq!(find_password_hash("abc", &trie), Err("invalid identity id (must be numeric)".to_string()));
    assert_eq!(find_password_hash("002", &trie), Err("identity 002 not found".to_string()));

    let mut manager = SessionManager::load(&trie);
    let permissions = Arc::new(PermissionEngine::load(&trie));
    let session = manager.create_session(9999, None);
    let ctx = SessionContext {
        session_id: session.id,
        session_manager: Arc::new(std::sync::RwLock::new(SessionManager::load(&trie))),
        permissions,
        enforce: true,
    };
    assert_eq!(
        handle_authenticate(true, Some("001"), Some("wrong"), &trie, &ctx, &mut manager),
        Err("invalid password".to_string())
    );
    assert_eq!(ctx.identity_id(&manager), 800);
    assert_eq!(
        handle_authenticate(true, Some("001"), Some("correct horse"), &trie, &ctx, &mut manager),
        Ok((1, PrivilegeTier::Omni))
    );
    assert_eq!(ctx.identity_id(&manager), 1);
    assert_eq!(
        handle_authenticate(true, None, Some("x"), &trie, &ctx, &mut manager),
        Err("args.identity required".to_string())
    );
    assert_eq!(
        handle_authenticate(false, None, None, &trie, &ctx, &mut manager),
        Err("args required for authenticate".to_string())
    );
    assert_eq!(authenticate_against("002", "x", &trie), Err("identity 002 not found".to_string()));
}

#[test]
fn create_identity_plan() {
    let alphabet = alphabet_of(&["-", "€"]);
    let trie = trie_of(&["hard/identities/600/-expected/type/identity".to_string()], &alphabet);
    let args = NewIdentity {
        id: Some("601".to_string()),
        name: Some("alice".to_string()),
        groups: Some(vec![Some("developers".to_string()), None]),
        password: None,
        uid: Some(502),
    };
    let plan = plan_create_identity(1, Some(&args), &trie).unwrap();
    assert_eq!(
        plan,
        vec![
            Effect::MakeDir { path: "hard/identities/601".to_string() },
            Effect::MakeDir { path: "hard/identities/601/-expected/type".to_string() },
            Effect::Touch { path: "hard/identities/601/-expected/type/identity".to_string() },
            Effect::MakeDir { path: "hard/identities/601/-name".to_string() },
            Effect::Touch { path: "hard/identities/601/-name/alice".to_string() },
            Effect::MakeDir { path: "hard/identities/601/-group".to_string() },
            Effect::Touch { path: "hard/identities/601/-group/developers".to_string() },
            Effect::MakeDir { path: "hard/identities/601/-uid".to_string() },
            Effect::Touch { path: "hard/identities/601/-uid/502".to_string() },
        ]
    );
    assert_eq!(
        plan_create_identity(600, Some(&args), &trie),
        Err("create_identity requires Admin tier or higher (caller is User)".to_string())
    );
    assert_eq!(plan_create_identity(1, None, &trie), Err("args required for create_identity".to_string()));
    let taken = NewIdentity { id: Some("600".to_string()), ..args.clone() };
    assert_eq!(plan_create_identity(1, Some(&taken), &trie), Err("identity 600 already exists".to_string()));
    let bad = NewIdentity { id: Some("six".to_string()), ..args.clone() };
    assert_eq!(plan_create_identity(1, Some(&bad), &trie), Err("args.id must be numeric".to_string()));
    let with_password = NewIdentity { password: Some("pw".to_string()), groups: None, name: None, uid: None, ..args };
    let plan = plan_create_identity(1, Some(&with_password), &trie).unwrap();
    assert_eq!(plan.len(), 5);
    match &plan[4] {
        Effect::Touch { path } => assert!(path.starts_with("hard/identities/601/-secret/.argon2id.")),
        _ => panic!("expected a touch"),
    }
}

#[test]
fn error_messages_match_the_engine() {
    let e = PithError::Permission { identity: 600, verb: "Write".to_string(), path: "jobs/1".to_string() };
    assert_eq!(e.message(), "Permission denied: identity 600 cannot Write at jobs/1");
    assert_eq!(PithError::Auth { reason: "x".to_string() }.message(), "Authentication error: x");
    let filename = hash_to_filename(&hash_password("pw").unwrap());
    assert!(!filename.contains('$'));
}

#[test]
fn default_config() {
    let c = PithConfig::default();
    assert_eq!(c.fs_root, "../src");
    assert_eq!(c.socket_path, "/tmp/pith.sock");
    assert_eq!(c.log_level, "info");
    assert!(!c.enforce_permissions);
}

#[test]
fn create_identity_takes_the_tier_from_the_callers_name() {
    let alphabet = alphabet_of(&["-", "€"]);
    let trie = trie_of(
        &[
            "hard/identities/099/-expected/type/identity".to_string(),
            "hard/identities/600/-expected/type/identity".to_string(),
        ],
        &alphabet,
    );
    let args = NewIdentity { id: Some("601".to_string()), name: None, groups: None, password: None, uid: None };
    // Identity 99 is written `099`: omni, so it may create identities.
    assert_eq!(plan_create_identity(99, Some(&args), &trie).unwrap().len(), 3);
    // A number no directory names is read in its plain decimal form.
    assert_eq!(
        plan_create_identity(98, Some(&args), &trie),
        Err("create_identity requires Admin tier or higher (caller is DigitalConsciousness)".to_string())
    );
    assert_eq!(pith::api::identity_name_of(&trie, 99), "099");
    assert_eq!(pith::api::identity_name_of(&trie, 7), "7");
}

#[test]
fn hashing_a_short_password_succeeds() {
    assert!(hash_password("").is_ok());
    assert!(provision_admin_paths("").is_ok());
}
