use std::sync::{Arc, RwLock};

use pith::alphabet::Alphabet;
use pith::dispatcher::{Dispatcher, Scope};
use pith::parser::NodeClass;
use pith::subsystems::FsEventKind;
use pith::trie::{Trie, TrieNode, WalkEntry};
use pith::watcher::WatchEvent;

fn alphabet_of(names: &[&str]) -> Alphabet {
    let names: Vec<String> = names.iter().map(|s| s.to_string()).collect();
    Alphabet::from_names(&names)
}

fn entry(rel: &str, is_file: bool) -> WalkEntry {
    WalkEntry { relative: rel.to_string(), is_file, mtime: Some(7) }
}

fn setup_test_fs() -> (Vec<WalkEntry>, Alphabet) {
    let alphabet = alphabet_of(&["$", "-", "!", "§", "€"]);
    let entries = vec![
        entry("hard", false),
        entry("hard/identities", false),
        entry("hard/identities/001", false),
        entry("hard/identities/001/-expected", false),
        entry("hard/identities/001/-expected/type", false),
        entry("hard/identities/001/-expected/type/identity", true),
        entry("hard/reserved", false),
        entry("hard/reserved/!", true),
        entry("hard/reserved/$", true),
        entry("hard/reserved/-", true),
        entry("hard/reserved/§", true),
        entry("hard/reserved/€", true),
        entry("jobs", false),
        entry("jobs/0", false),
        entry("states", false),
        entry("states/0", true),
    ];
    (entries, alphabet)
}

#[test]
fn test_build_trie() {
    let (entries, alphabet) = setup_test_fs();
    let trie = Trie::build_from_entries(&entries, &alphabet);
    assert!(trie.get(&["hard"]).is_some());
    assert!(trie.get(&["jobs"]).is_some());
    assert!(trie.get(&["states"]).is_some());
}

#[test]
fn test_lookup() {
    let (entries, alphabet) = setup_test_fs();
    let trie = Trie::build_from_entries(&entries, &alphabet);
    let node = trie.get(&["hard", "identities", "001", "-expected", "type", "identity"]);
    assert!(node.is_some());
    assert!(node.unwrap().is_file);
    assert_eq!(node.unwrap().mtime, Some(7));
}

#[test]
fn test_list() {
    let (entries, alphabet) = setup_test_fs();
    let trie = Trie::build_from_entries(&entries, &alphabet);
    let children = trie.list(&["hard"]).unwrap();
    assert!(children.contains(&"reserved"));
    assert!(children.contains(&"identities"));
    assert_eq!(children, vec!["identities", "reserved"]);
}

#[test]
fn test_insert_and_remove() {
    let (entries, alphabet) = setup_test_fs();
    let mut trie = Trie::build_from_entries(&entries, &alphabet);
    trie.insert(&["events".to_string(), "!boot".to_string()], true, &alphabet);
    assert!(trie.get(&["events", "!boot"]).is_some());
    assert!(trie.remove(&["events", "!boot"]));
    assert!(trie.get(&["events", "!boot"]).is_none());
}

#[test]
fn test_dotfiles_skipped() {
    let (mut entries, alphabet) = setup_test_fs();
    entries.push(entry("jobs/.gitkeep", true));
    entries.push(entry(".git/config", true));
    entries.push(entry("pointers/unicodes/0041", true));
    let trie = Trie::build_from_entries(&entries, &alphabet);
    let jobs_children = trie.list(&["jobs"]);
    if let Some(children) = jobs_children {
        assert!(!children.contains(&".gitkeep"));
    }
    assert!(trie.get(&[".git"]).is_none());
    assert!(trie.get(&["pointers"]).is_none());
}

#[test]
fn classes_follow_the_alphabet() {
    let (entries, alphabet) = setup_test_fs();
    let trie = Trie::build_from_entries(&entries, &alphabet);
    let node = trie.get(&["hard", "identities", "001", "-expected"]).unwrap();
    assert_eq!(node.class, NodeClass::Instruction { door: '-', arg: "expected".to_string() });
    assert!(!node.is_file);
    assert_eq!(node.mtime, None);
}

#[test]
fn counts_and_removal_of_subtrees() {
    let (entries, alphabet) = setup_test_fs();
    let mut trie = Trie::build_from_entries(&entries, &alphabet);
    assert_eq!(trie.total_nodes(), 16);
    assert!(trie.remove(&["hard", "identities"]));
    assert!(trie.get(&["hard", "identities", "001"]).is_none());
    assert_eq!(trie.total_nodes(), 11);
    assert!(!trie.remove(&["hard", "identities"]));
    assert!(!trie.remove(&[]));
}

#[test]
fn get_mut_changes_in_place() {
    let (entries, alphabet) = setup_test_fs();
    let mut trie = Trie::build_from_entries(&entries, &alphabet);
    {
        let node = trie.get_mut(&["states", "0"]).unwrap();
        node.mtime = Some(99);
    }
    assert_eq!(trie.get(&["states", "0"]).unwrap().mtime, Some(99));
    assert!(trie.get_mut(&["nowhere"]).is_none());
}

#[test]
fn leaf_paths_join_segments() {
    let (entries, alphabet) = setup_test_fs();
    let trie = Trie::build_from_entries(&entries, &alphabet);
    let jobs = trie.get(&[]).unwrap();
    let leaves = jobs.leaf_paths();
    assert!(leaves.contains(&"hard/identities/001/-expected/type/identity".to_string()));
    assert!(leaves.contains(&"jobs/0".to_string()));
    assert!(leaves.contains(&"states/0".to_string()));
    let lone = TrieNode::new("x".to_string(), NodeClass::Data("x".to_string()), true);
    assert!(lone.leaf_paths().is_empty());
    assert_eq!(lone.count(), 1);
}

fn make_trie() -> Trie {
    Trie { root: TrieNode::new(String::new(), NodeClass::Data(String::new()), false) }
}

fn make_alphabet() -> Alphabet {
    alphabet_of(&["$", "-", "!", "§", "€"])
}

#[test]
fn test_scope_from_segment() {
    assert_eq!(Scope::from_segment("jobs"), Some(Scope::Jobs));
    assert_eq!(Scope::from_segment("hard"), Some(Scope::Hard));
    assert_eq!(Scope::from_segment("unknown"), None);
}

#[test]
fn test_dispatch_updates_trie_on_assert() {
    let trie = Arc::new(RwLock::new(make_trie()));
    let dispatcher = Dispatcher::new(trie.clone(), make_alphabet());
    let event = WatchEvent {
        kind: FsEventKind::Assert,
        relative_path: "jobs/1".to_string(),
        absolute_path: "/tmp/test_file".to_string(),
    };
    let fs_event = dispatcher.dispatch(&mut trie.write().unwrap(), &event, true);
    assert!(fs_event.is_some());
    assert_eq!(fs_event.unwrap().scope, Scope::Jobs);
    let trie = trie.read().unwrap();
    assert!(trie.get(&["jobs", "1"]).is_some());
    assert!(trie.get(&["jobs", "1"]).unwrap().is_file);
}

#[test]
fn test_dispatch_updates_trie_on_retract() {
    let trie = Arc::new(RwLock::new(make_trie()));
    let alphabet = make_alphabet();
    let dispatcher = Dispatcher::new(trie.clone(), alphabet.clone());
    {
        let mut t = trie.write().unwrap();
        t.insert(&["jobs".to_string(), "1".to_string()], true, &alphabet);
    }
    let event = WatchEvent {
        kind: FsEventKind::Retract,
        relative_path: "jobs/1".to_string(),
        absolute_path: "/fake/jobs/1".to_string(),
    };
    dispatcher.dispatch(&mut trie.write().unwrap(), &event, false);
    let t = trie.read().unwrap();
    assert!(t.get(&["jobs", "1"]).is_none());
}

#[test]
fn test_dispatch_warns_on_hard_scope() {
    let trie = Arc::new(RwLock::new(make_trie()));
    let dispatcher = Dispatcher::new(trie.clone(), make_alphabet());
    let event = WatchEvent {
        kind: FsEventKind::Assert,
        relative_path: "hard/reserved/new_char".to_string(),
        absolute_path: "/fake/hard/reserved/new_char".to_string(),
    };
    let fs_event = dispatcher.dispatch(&mut trie.write().unwrap(), &event, false);
    assert!(fs_event.is_some());
    assert_eq!(fs_event.unwrap().scope, Scope::Hard);
}

#[test]
fn dispatch_drops_unknown_scopes_and_empty_paths() {
    let trie = Arc::new(RwLock::new(make_trie()));
    let dispatcher = Dispatcher::new(trie.clone(), make_alphabet());
    let unknown = WatchEvent { kind: FsEventKind::Assert, relative_path: "elsewhere/x".to_string(), absolute_path: String::new() };
    assert!(dispatcher.dispatch(&mut trie.write().unwrap(), &unknown, true).is_none());
    let empty = WatchEvent { kind: FsEventKind::Assert, relative_path: String::new(), absolute_path: String::new() };
    assert!(dispatcher.dispatch(&mut trie.write().unwrap(), &empty, true).is_none());
    assert!(trie.read().unwrap().get(&["elsewhere"]).is_none());
    let shared = dispatcher.trie();
    assert!(Arc::ptr_eq(&shared, &trie));
}

#[test]
fn scope_names_round_trip() {
    for s in [Scope::Hard, Scope::Tmp, Scope::Subscriptions, Scope::Pointers] {
        assert_eq!(Scope::from_segment(s.name()), Some(s));
    }
}

#[test]
fn every_scope_name_leads_back() {
    let all = [
        Scope::Hard, Scope::States, Scope::Jobs, Scope::Workers, Scope::Channels, Scope::Events,
        Scope::Programs, Scope::Databases, Scope::Pointers, Scope::Schedules, Scope::Sessions,
        Scope::Subscriptions, Scope::Logs, Scope::Tmp,
    ];
    for s in all {
        assert_eq!(Scope::from_segment(s.name()), Some(s));
    }
    assert_eq!(Scope::from_segment("src"), None);
}

#[test]
fn checked_total_nodes_agrees_with_total_nodes() {
    let (entries, alphabet) = setup_test_fs();
    let trie = Trie::build_from_entries(&entries, &alphabet);
    assert!(trie.total_nodes() > 0);
    assert_eq!(trie.checked_total_nodes(), Some(trie.total_nodes()));
    assert_eq!(trie.root.checked_count(), Some(trie.root.count()));
}
