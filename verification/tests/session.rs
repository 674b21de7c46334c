use std::sync::{Arc, RwLock};

use pith::alphabet::Alphabet;
use pith::effector::Effect;
use pith::error::PithError;
use pith::permissions::{PermissionEngine, Verb};
use pith::session::{verb_for_op, Session, SessionContext, SessionManager, SessionTable};
use pith::trie::{Trie, WalkEntry};

fn setup_session_trie() -> Trie {
    let names: Vec<String> = ["€", "-", "§", "~"].iter().map(|s| s.to_string()).collect();
    let alphabet = Alphabet::from_names(&names);
    let entries = vec![
        WalkEntry { relative: "hard/reserved/€".to_string(), is_file: true, mtime: None },
        WalkEntry { relative: "hard/reserved/-".to_string(), is_file: true, mtime: None },
        WalkEntry { relative: "hard/reserved/§".to_string(), is_file: true, mtime: None },
        WalkEntry { relative: "hard/reserved/~".to_string(), is_file: true, mtime: None },
        WalkEntry { relative: "hard/identities/600/-uid/501".to_string(), is_file: true, mtime: None },
        WalkEntry { relative: "hard/identities/300/-uid/0".to_string(), is_file: true, mtime: None },
        WalkEntry { relative: "hard/identities/800".to_string(), is_file: false, mtime: None },
    ];
    Trie::build_from_entries(&entries, &alphabet)
}

#[test]
fn test_session_manager_load() {
    let trie = setup_session_trie();
    let mut manager = SessionManager::load(&trie);
    assert_eq!(manager.uid_mapping_count(), 2);
    assert_eq!(manager.identity_for_uid(501), Some(600));
    assert_eq!(manager.identity_for_uid(0), Some(300));
}

#[test]
fn test_create_session_known_uid() {
    let trie = setup_session_trie();
    let mut manager = SessionManager::load(&trie);
    let session = manager.create_session(501, Some(1234));
    assert_eq!(session.id, 1);
    assert_eq!(session.identity_id, 600);
    assert_eq!(session.unix_uid, 501);
    assert_eq!(session.unix_pid, Some(1234));
}

#[test]
fn test_create_session_unknown_uid_falls_back_to_guest() {
    let trie = setup_session_trie();
    let mut manager = SessionManager::load(&trie);
    let session = manager.create_session(9999, None);
    assert_eq!(session.identity_id, 800);
}

#[test]
fn test_session_ids_increment() {
    let trie = setup_session_trie();
    let mut manager = SessionManager::load(&trie);
    let s1 = manager.create_session(501, None);
    let s2 = manager.create_session(501, None);
    let s3 = manager.create_session(0, None);
    assert_eq!(s1.id, 1);
    assert_eq!(s2.id, 2);
    assert_eq!(s3.id, 3);
}

#[test]
fn test_destroy_session() {
    let trie = setup_session_trie();
    let mut manager = SessionManager::load(&trie);
    let session = manager.create_session(501, None);
    let id = session.id;
    assert!(manager.get_session(id).is_some());
    let removed = manager.destroy_session(id);
    assert!(removed.is_some());
    assert!(manager.get_session(id).is_none());
}

#[test]
fn test_destroy_nonexistent_session() {
    let trie = setup_session_trie();
    let mut manager = SessionManager::load(&trie);
    assert!(manager.destroy_session(999).is_none());
}

#[test]
fn test_authenticate_session_upgrade() {
    let trie = setup_session_trie();
    let mut manager = SessionManager::load(&trie);
    let session = manager.create_session(9999, None);
    assert_eq!(session.identity_id, 800);
    let old = manager.authenticate_session(session.id, 600);
    assert_eq!(old, Some(800));
    let updated = manager.get_session(session.id).unwrap();
    assert_eq!(updated.identity_id, 600);
}

#[test]
fn test_authenticate_nonexistent_session() {
    let trie = setup_session_trie();
    let mut manager = SessionManager::load(&trie);
    assert!(manager.authenticate_session(999, 600).is_none());
}

#[test]
fn test_session_effects_create() {
    let session = Session { id: 42, identity_id: 600, unix_uid: 501, unix_pid: Some(1234), connected_at: 0 };
    let effects = SessionManager::session_effects_create(&session);
    assert_eq!(effects.len(), 7);
    assert_eq!(effects[0], Effect::MakeDir { path: "sessions/~42".to_string() });
    assert_eq!(effects[2], Effect::Touch { path: "sessions/~42/-identity/600".to_string() });
    assert_eq!(effects[4], Effect::Touch { path: "sessions/~42/-uid/501".to_string() });
    assert_eq!(effects[6], Effect::Touch { path: "sessions/~42/-state/active".to_string() });
}

#[test]
fn test_session_effects_destroy() {
    let session = Session { id: 42, identity_id: 600, unix_uid: 501, unix_pid: None, connected_at: 0 };
    let effects = SessionManager::session_effects_destroy(&session);
    assert_eq!(effects.len(), 7);
    assert_eq!(effects[6], Effect::Remove { path: "sessions/~42".to_string() });
}

#[test]
fn test_verb_for_op() {
    assert_eq!(verb_for_op("ping"), None);
    assert_eq!(verb_for_op("authenticate"), None);
    assert_eq!(verb_for_op("status"), Some(Verb::Read));
    assert_eq!(verb_for_op("ls"), Some(Verb::Read));
    assert_eq!(verb_for_op("query"), Some(Verb::Read));
    assert_eq!(verb_for_op("db_query"), Some(Verb::Read));
    assert_eq!(verb_for_op("touch"), Some(Verb::Write));
    assert_eq!(verb_for_op("mkdir"), Some(Verb::Write));
    assert_eq!(verb_for_op("rm"), Some(Verb::Write));
    assert_eq!(verb_for_op("mv"), Some(Verb::Write));
    assert_eq!(verb_for_op("create_identity"), Some(Verb::Write));
    assert_eq!(verb_for_op("unknown"), Some(Verb::Execute));
}

#[test]
fn test_active_session_ids() {
    let trie = setup_session_trie();
    let mut manager = SessionManager::load(&trie);
    let s1 = manager.create_session(501, None);
    let s2 = manager.create_session(0, None);
    let mut ids = manager.active_session_ids();
    ids.sort();
    assert_eq!(ids, vec![s1.id, s2.id]);
}

#[test]
fn destroy_effects_undo_create_effects_in_reverse() {
    let session = Session { id: 7, identity_id: 1, unix_uid: 0, unix_pid: None, connected_at: 5 };
    let created = SessionManager::session_effects_create(&session);
    let destroyed = SessionManager::session_effects_destroy(&session);
    for (i, d) in destroyed.iter().enumerate() {
        assert_eq!(d.path(), created[6 - i].path());
    }
}

#[test]
fn session_table_laws_on_values() {
    let mut t = SessionTable::new();
    let a = t.create(600, 501, None, 10);
    let b = t.create(800, 9, Some(3), 11);
    assert_eq!(a.id, 1);
    assert_eq!(b.id, 2);
    assert_eq!(t.get(1), Some(a));
    assert_eq!(t.authenticate(2, 1), Some(800));
    assert_eq!(t.get(2).unwrap().identity_id, 1);
    assert_eq!(t.get(2).unwrap().unix_pid, Some(3));
    assert_eq!(t.destroy(1), Some(a));
    assert_eq!(t.get(1), None);
    assert_eq!(t.destroy(1), None);
    assert_eq!(t.get(2).unwrap().unix_uid, 9);
    assert_eq!(t.ids(), vec![2]);
}

#[test]
fn context_enforces_permissions() {
    let trie = setup_session_trie();
    let mut manager = SessionManager::load(&trie);
    let permissions = Arc::new(PermissionEngine::load(&trie));
    let session = manager.create_session(501, None);
    let shared = Arc::new(RwLock::new(SessionManager::load(&trie)));
    let ctx = SessionContext { session_id: session.id, session_manager: shared.clone(), permissions: permissions.clone(), enforce: true };
    assert_eq!(ctx.identity_id(&manager), 600);
    match ctx.check_permission(&manager, Verb::Write, &["jobs", "1"]) {
        Err(PithError::Permission { identity, verb, path }) => {
            assert_eq!(identity, 600);
            assert_eq!(verb, "Write");
            assert_eq!(path, "jobs/1");
        }
        other => panic!("unexpected {:?}", other),
    }
    assert!(ctx.check_request(&manager, "ping", "jobs/1").is_ok());
    assert!(ctx.check_request(&manager, "touch", "/jobs/1").is_err());
    assert!(ctx.check_request(&manager, "ls", "databases").is_err());
    let open = SessionContext { session_id: session.id, session_manager: shared, permissions, enforce: false };
    assert!(open.check_permission(&manager, Verb::Write, &["jobs", "1"]).is_ok());
}

#[test]
fn vanished_session_acts_as_guest() {
    let trie = setup_session_trie();
    let manager = SessionManager::load(&trie);
    let permissions = Arc::new(PermissionEngine::load(&trie));
    let ctx = SessionContext {
        session_id: 77,
        session_manager: Arc::new(RwLock::new(SessionManager::load(&trie))),
        permissions,
        enforce: true,
    };
    assert!(ctx.session(&manager).is_none());
    assert_eq!(ctx.identity_id(&manager), 800);
}

#[test]
fn manager_open_ids_are_created_minus_destroyed() {
    let trie = setup_session_trie();
    let mut manager = SessionManager::load(&trie);
    let s1 = manager.create_session(501, None);
    let s2 = manager.create_session(0, None);
    let s3 = manager.create_session(9, None);
    manager.destroy_session(s2.id);
    let mut ids = manager.active_session_ids();
    ids.sort();
    assert_eq!(ids, vec![s1.id, s3.id]);
}

#[test]
fn open_sessions_are_created_minus_destroyed() {
    let mut t = SessionTable::new();
    for i in 0..5u32 {
        t.create(800, i, None, 0);
    }
    t.destroy(2);
    t.destroy(4);
    let mut ids = t.ids();
    ids.sort();
    assert_eq!(ids, vec![1, 3, 5]);
    assert_eq!(t.create(800, 9, None, 0).id, 6);
}
