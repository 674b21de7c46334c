use std::sync::{Arc, RwLock};
use std::time::{Duration, SystemTime, UNIX_EPOCH};

use pith::alphabet::Alphabet;
use pith::dispatcher::Scope;
use pith::effector::Effect;
use pith::subsystems::channels::ChannelsSubsystem;
use pith::subsystems::databases::{query_set, DatabasesSubsystem};
use pith::subsystems::events::EventsSubsystem;
use pith::subsystems::jobs::JobsSubsystem;
use pith::subsystems::logs::LogsSubsystem;
use pith::subsystems::programs::{reevaluate_programs, ProgramsSubsystem};
use pith::subsystems::scheduler::{check_schedule, check_schedule_at, schedule_candidates, SchedulerSubsystem};
use pith::subsystems::states::StatesSubsystem;
use pith::subsystems::subscriptions::SubscriptionsSubsystem;
use pith::subsystems::workers::WorkersSubsystem;
use pith::subsystems::{FsEvent, FsEventKind, Subsystem, SubsystemRegistry};
use pith::trie::{Trie, WalkEntry};

fn event(kind: FsEventKind, segments: &[&str], scope: Scope) -> FsEvent {
    FsEvent { kind, segments: segments.iter().map(|s| s.to_string()).collect(), scope }
}

fn no_trie() -> Trie {
    Trie::build_from_entries(&[], &Alphabet::from_names(&[]))
}

fn touches(e: &Effect, p: &str) -> bool {
    matches!(e, Effect::Touch { path } if path == p)
}

fn touch_contains(e: &Effect, p: &str) -> bool {
    matches!(e, Effect::Touch { path } if path.contains(p))
}

fn alphabet_of(names: &[&str]) -> Alphabet {
    let names: Vec<String> = names.iter().map(|s| s.to_string()).collect();
    Alphabet::from_names(&names)
}

fn trie_of(files: &[&str], dirs: &[&str], alphabet: &Alphabet) -> Trie {
    let mut entries: Vec<WalkEntry> = Vec::new();
    for d in dirs {
        entries.push(WalkEntry { relative: d.to_string(), is_file: false, mtime: None });
    }
    for f in files {
        entries.push(WalkEntry { relative: f.to_string(), is_file: true, mtime: None });
    }
    Trie::build_from_entries(&entries, alphabet)
}

fn nanos(t: SystemTime) -> u64 {
    t.duration_since(UNIX_EPOCH).unwrap().as_nanos() as u64
}

// --- channels ---

#[test]
fn test_channel_message_assert() {
    let sub = ChannelsSubsystem::new();
    let ev = event(FsEventKind::Assert, &["channels", "#main", "~0001", "(hello world)"], Scope::Channels);
    let effects = sub.handle(&ev, &no_trie());
    assert_eq!(effects.len(), 2);
    let has_delivery = effects.iter().any(|e| touch_contains(e, "!channel_main_~0001"));
    assert!(has_delivery);
}

#[test]
fn test_channel_message_retract() {
    let sub = ChannelsSubsystem::new();
    let ev = event(FsEventKind::Retract, &["channels", "#errors", "~0001"], Scope::Channels);
    let effects = sub.handle(&ev, &no_trie());
    assert_eq!(effects.len(), 2);
    let has_consumed = effects.iter().any(|e| touch_contains(e, "!channel_errors_~0001_consumed"));
    assert!(has_consumed);
}

#[test]
fn channels_test_short_path_ignored() {
    let sub = ChannelsSubsystem::new();
    let ev = event(FsEventKind::Assert, &["channels"], Scope::Channels);
    assert!(sub.handle(&ev, &no_trie()).is_empty());
}

#[test]
fn channel_effects_exact() {
    let sub = ChannelsSubsystem::new();
    let ev = event(FsEventKind::Assert, &["channels", "##ops", "~7"], Scope::Channels);
    let effects = sub.handle_at(&ev, "STAMP");
    assert_eq!(
        effects,
        vec![
            Effect::Touch { path: "logs/STAMP_(channel ##ops message ~7 posted)".to_string() },
            Effect::Touch { path: "events/!channel_ops_~7".to_string() },
        ]
    );
    let mv = event(FsEventKind::Transform, &["channels", "#a", "~1"], Scope::Channels);
    assert!(sub.handle_at(&mv, "S").is_empty());
}

// --- databases ---

fn setup_db() -> Trie {
    let alphabet = alphabet_of(&["€", "-", "!", "§", "∆"]);
    trie_of(
        &[
            "databases/psychology/blue/effects/anxiety",
            "databases/psychology/blue/effects/bad_sleep",
            "databases/translations/en/fr/colors/blue/bleu",
        ],
        &[],
        &alphabet,
    )
}

#[test]
fn test_query_set_members() {
    let trie = setup_db();
    let results = query_set(&trie, &["psychology", "blue", "effects"]);
    assert!(results.contains(&"anxiety".to_string()));
    assert!(results.contains(&"bad_sleep".to_string()));
    assert_eq!(results.len(), 2);
}

#[test]
fn test_query_translation() {
    let trie = setup_db();
    let results = query_set(&trie, &["translations", "en", "fr", "colors", "blue"]);
    assert_eq!(results, vec!["bleu".to_string()]);
}

#[test]
fn test_query_nonexistent() {
    let trie = setup_db();
    assert!(query_set(&trie, &["nonexistent"]).is_empty());
}

#[test]
fn query_set_walks_depth_first_in_name_order() {
    let trie = setup_db();
    let results = query_set(&trie, &["psychology"]);
    assert_eq!(results, vec!["anxiety".to_string(), "bad_sleep".to_string()]);
}

#[test]
fn test_handle_entry_added() {
    let sub = DatabasesSubsystem::new();
    let ev = event(FsEventKind::Assert, &["databases", "colors", "red"], Scope::Databases);
    assert!(sub.handle(&ev, &no_trie()).is_empty());
}

#[test]
fn test_handle_cross_reference() {
    let sub = DatabasesSubsystem::new();
    let ev = event(
        FsEventKind::Assert,
        &["databases", "colors", "blue", "psychology", "∆psychology∆blue"],
        Scope::Databases,
    );
    assert_eq!(sub.handle(&ev, &no_trie()).len(), 1);
}

#[test]
fn cross_reference_log_names_the_path() {
    let sub = DatabasesSubsystem::new();
    let ev = event(FsEventKind::Assert, &["databases", "a", "∆b"], Scope::Databases);
    assert_eq!(sub.handle_at(&ev, "T"), vec![Effect::Touch { path: "logs/T_(db xref a/∆b)".to_string() }]);
}

// --- events ---

#[test]
fn test_signal_creates_history() {
    let sub = EventsSubsystem::new();
    let ev = event(FsEventKind::Assert, &["events", "!test_signal"], Scope::Events);
    let effects = sub.handle(&ev, &no_trie());
    assert_eq!(effects.len(), 1);
    match &effects[0] {
        Effect::Touch { path } => {
            assert!(path.starts_with("events/-history/"));
            assert!(path.contains("!test_signal"));
        }
        _ => panic!("Expected Touch"),
    }
}

#[test]
fn test_history_ignored() {
    let sub = EventsSubsystem::new();
    let ev = event(FsEventKind::Assert, &["events", "-history", "old"], Scope::Events);
    assert!(sub.handle(&ev, &no_trie()).is_empty());
}

#[test]
fn test_retract_no_effects() {
    let sub = EventsSubsystem::new();
    let ev = event(FsEventKind::Retract, &["events", "!done"], Scope::Events);
    assert!(sub.handle(&ev, &no_trie()).is_empty());
}

#[test]
fn test_event_notifies_matching_subscribers() {
    let alphabet = alphabet_of(&["$", "-", "!", "€"]);
    let trie = trie_of(
        &["subscriptions/001/events/!heartbeat/subscription", "subscriptions/002/events/!other/subscription"],
        &[],
        &alphabet,
    );
    let shared = Arc::new(RwLock::new(trie));
    let sub = EventsSubsystem::new_with_trie(Arc::clone(&shared));
    let ev = event(FsEventKind::Assert, &["events", "!heartbeat"], Scope::Events);
    let effects = sub.handle(&ev, &shared.read().unwrap());
    assert!(effects.len() >= 2);
    let notified = effects
        .iter()
        .any(|e| touch_contains(e, "subscriptions/001/events/!heartbeat/-fired/"));
    assert!(notified);
    let guard = shared.read().unwrap();
    let exact = EventsSubsystem::handle_at(&ev, "NOW", Some(&*guard));
    assert_eq!(
        exact,
        vec![
            Effect::Touch { path: "events/-history/NOW_!heartbeat".to_string() },
            Effect::Touch { path: "subscriptions/001/events/!heartbeat/-fired/NOW".to_string() },
        ]
    );
}

// --- jobs ---

#[test]
fn test_job_state_pending() {
    let sub = JobsSubsystem::new();
    let ev = event(FsEventKind::Assert, &["jobs", "1", "-state", "pending"], Scope::Jobs);
    let effects = sub.handle(&ev, &no_trie());
    assert_eq!(effects.len(), 2);
    match &effects[1] {
        Effect::Touch { path } => assert_eq!(path, "events/!job_1_pending"),
        _ => panic!("Expected Touch"),
    }
}

#[test]
fn test_job_completed_signal() {
    let sub = JobsSubsystem::new();
    let ev = event(FsEventKind::Assert, &["jobs", "42", "!completed"], Scope::Jobs);
    let effects = sub.handle(&ev, &no_trie());
    assert!(effects.len() >= 2);
    assert!(effects.iter().any(|e| touches(e, "events/!job_42_completed")));
}

#[test]
fn test_job_state_transition_cleanup() {
    let sub = JobsSubsystem::new();
    let ev = event(FsEventKind::Retract, &["jobs", "1", "-state", "pending"], Scope::Jobs);
    let effects = sub.handle(&ev, &no_trie());
    assert_eq!(effects.len(), 1);
    match &effects[0] {
        Effect::Remove { path } => assert_eq!(path, "events/!job_1_pending"),
        _ => panic!("Expected Remove"),
    }
}

#[test]
fn test_new_job_created() {
    let sub = JobsSubsystem::new();
    let ev = event(FsEventKind::Assert, &["jobs", "5", "-expected", "type", "job"], Scope::Jobs);
    let effects = sub.handle(&ev, &no_trie());
    assert!(effects.iter().any(|e| touch_contains(e, "job 5 created")));
}

#[test]
fn jobs_test_anchor_ignored() {
    let sub = JobsSubsystem::new();
    let ev = event(FsEventKind::Assert, &["jobs", "0"], Scope::Jobs);
    assert!(sub.handle(&ev, &no_trie()).is_empty());
}

#[test]
fn job_state_signal_both_fire() {
    let sub = JobsSubsystem::new();
    let ev = event(FsEventKind::Assert, &["jobs", "3", "-state", "!odd"], Scope::Jobs);
    let effects = sub.handle_at(&ev, "S");
    assert_eq!(
        effects,
        vec![
            Effect::Touch { path: "logs/S_(job 3 state !odd)".to_string() },
            Effect::Touch { path: "events/!job_3_!odd".to_string() },
            Effect::Touch { path: "logs/S_(job 3 odd)".to_string() },
            Effect::Touch { path: "events/!job_3_odd".to_string() },
        ]
    );
}

// --- logs ---

#[test]
fn test_log_effect_format() {
    match LogsSubsystem::log_effect("boot completed") {
        Effect::Touch { path } => {
            assert!(path.starts_with("logs/"));
            assert!(path.contains("(boot completed)"));
        }
        _ => panic!("Expected Touch"),
    }
}

#[test]
fn log_entries_are_stamped_with_the_utc_time() {
    match LogsSubsystem::log_effect("x") {
        Effect::Touch { path } => {
            let stamp = &path["logs/".len()..path.len() - "_(x)".len()];
            assert_eq!(stamp.len(), 19);
            let year: u32 = stamp[0..4].parse().unwrap();
            assert!(year >= 2024);
            assert_eq!(&stamp[8..9], "_");
            assert_eq!(&stamp[15..16], "_");
            assert!(stamp.chars().filter(|c| *c != '_').all(|c| c.is_ascii_digit()));
        }
        _ => panic!("Expected Touch"),
    }
}

#[test]
fn test_handle_assert_no_effects() {
    let sub = LogsSubsystem::new();
    let ev = event(FsEventKind::Assert, &["logs", "20260402_(test)"], Scope::Logs);
    assert!(sub.handle(&ev, &no_trie()).is_empty());
}

#[test]
fn log_effect_at_is_exact() {
    assert_eq!(
        LogsSubsystem::log_effect_at("20260101_000000_000", "hi"),
        Effect::Touch { path: "logs/20260101_000000_000_(hi)".to_string() }
    );
}

// --- programs ---

#[test]
fn test_program_run() {
    let sub = ProgramsSubsystem::new();
    let ev = event(FsEventKind::Assert, &["programs", "my_app", "!run"], Scope::Programs);
    let effects = sub.handle(&ev, &no_trie());
    assert_eq!(effects.len(), 2);
    assert!(effects.iter().any(|e| touches(e, "events/!program_my_app_started")));
}

#[test]
fn test_program_completed() {
    let sub = ProgramsSubsystem::new();
    let ev = event(FsEventKind::Assert, &["programs", "my_app", "!completed"], Scope::Programs);
    let effects = sub.handle(&ev, &no_trie());
    assert!(effects.iter().any(|e| touches(e, "events/!program_my_app_completed")));
}

#[test]
fn test_program_installed() {
    let sub = ProgramsSubsystem::new();
    let ev = event(FsEventKind::Assert, &["programs", "my_app", "-expected", "type", "program"], Scope::Programs);
    let effects = sub.handle(&ev, &no_trie());
    assert!(effects.iter().any(|e| touch_contains(e, "program my_app installed")));
}

#[test]
fn test_program_stopped() {
    let sub = ProgramsSubsystem::new();
    let ev = event(FsEventKind::Retract, &["programs", "my_app", "!run"], Scope::Programs);
    let effects = sub.handle(&ev, &no_trie());
    assert!(effects.iter().any(|e| touch_contains(e, "program my_app stopped")));
}

fn setup_program_fs() -> (Trie, Alphabet) {
    let alphabet = alphabet_of(&["$", "-", "!", "§", "€"]);
    let trie = trie_of(
        &[
            "hard/reserved/$",
            "programs/metro/-state/tick",
            "programs/metro/-states/tick/-transitions/tock/-condition/events/!go",
            "programs/metro/-states/tock/-action/touch/tmp/beat",
        ],
        &["events"],
        &alphabet,
    );
    (trie, alphabet)
}

#[test]
fn test_condition_requires_leaf_not_prefix() {
    let (trie, alphabet) = setup_program_fs();
    let mut trie = trie;
    let effects = reevaluate_programs(&trie);
    assert!(effects.is_empty(), "prefix events/ must not satisfy the condition");

    trie.insert(&["events".to_string(), "!go".to_string()], true, &alphabet);
    let effects = reevaluate_programs(&trie);
    assert!(effects.iter().any(|e| touches(e, "programs/metro/-state/tock")));
}

#[test]
fn test_touch_action_supports_deep_paths() {
    let (trie, alphabet) = setup_program_fs();
    let mut trie = trie;
    trie.insert(&["events".to_string(), "!go".to_string()], true, &alphabet);
    let effects = reevaluate_programs(&trie);
    assert!(effects.iter().any(|e| touches(e, "tmp/beat")));
    assert!(!effects.iter().any(|e| touches(e, "tmp")));
}

#[test]
fn program_run_enters_initial_state_and_follows_transitions() {
    let alphabet = alphabet_of(&["$", "-", "!", "§", "€"]);
    let trie = trie_of(
        &[
            "programs/p/-entry/-state/a",
            "programs/p/-states/a/-action/touch/x/y",
            "programs/p/-states/a/-transitions/b/-condition/flags/go",
            "programs/p/-states/b/-action/schedule/nightly",
            "programs/p/-states/b/-action/remove/q",
            "flags/go",
        ],
        &[],
        &alphabet,
    );
    let effects = ProgramsSubsystem::execute_program("p", &trie, 1_000);
    assert_eq!(
        effects,
        vec![
            Effect::Touch { path: "programs/p/-state/a".to_string() },
            Effect::Touch { path: "events/!program_p_entered_a".to_string() },
            Effect::Touch { path: "x/y".to_string() },
            Effect::Remove { path: "programs/p/-state/a".to_string() },
            Effect::Touch { path: "programs/p/-state/b".to_string() },
            Effect::Touch { path: "events/!program_p_transitioned_a_to_b".to_string() },
            Effect::TouchWithMtime { path: "schedules/nightly".to_string(), mtime: 120_000_001_000 },
            Effect::Remove { path: "q".to_string() },
        ]
    );
    let ev = event(FsEventKind::Assert, &["programs", "p", "!run"], Scope::Programs);
    let all = ProgramsSubsystem::handle_at(&ev, "S", 1_000, Some(&trie));
    assert_eq!(all.len(), 10);
    assert_eq!(all[0], Effect::Touch { path: "logs/S_(program p started)".to_string() });
}

#[test]
fn program_cycle_stops_after_ten_transitions() {
    let alphabet = alphabet_of(&["-", "€"]);
    let trie = trie_of(
        &[
            "programs/c/-entry/-state/a",
            "programs/c/-states/a/-transitions/b/-condition/on",
            "programs/c/-states/b/-transitions/a/-condition/on",
            "on",
        ],
        &[],
        &alphabet,
    );
    let effects = ProgramsSubsystem::execute_program("c", &trie, 0);
    assert_eq!(effects.len(), 2 + 10 * 3);
}

// --- scheduler ---

#[test]
fn test_schedule_registered() {
    let sub = SchedulerSubsystem::new();
    let ev = event(FsEventKind::Assert, &["schedules", "cleanup"], Scope::Schedules);
    let effects = sub.handle(&ev, &no_trie());
    assert_eq!(effects.len(), 1);
    assert!(touch_contains(&effects[0], "schedule cleanup registered"));
}

#[test]
fn test_schedule_removed() {
    let sub = SchedulerSubsystem::new();
    let ev = event(FsEventKind::Retract, &["schedules", "cleanup"], Scope::Schedules);
    assert_eq!(sub.handle(&ev, &no_trie()).len(), 1);
}

#[test]
fn test_check_schedule_past_fires() {
    let past = nanos(SystemTime::now() - Duration::from_secs(10));
    let effects = check_schedule("cleanup", past);
    assert!(effects.is_some());
    let effects = effects.unwrap();
    assert!(effects.iter().any(|e| touches(e, "events/!schedule_cleanup")));
}

#[test]
fn test_check_schedule_future_skips() {
    let future = nanos(SystemTime::now() + Duration::from_secs(3600));
    assert!(check_schedule("backup", future).is_none());
}

#[test]
fn check_schedule_at_boundary_fires() {
    let fired = check_schedule_at("t", 5, 5, "S").unwrap();
    assert_eq!(
        fired,
        vec![
            Effect::Touch { path: "events/!schedule_t".to_string() },
            Effect::Touch { path: "logs/S_(schedule t fired)".to_string() },
        ]
    );
    assert!(check_schedule_at("t", 6, 5, "S").is_none());
}

#[test]
fn schedule_candidates_skip_anchor_and_directories() {
    let alphabet = alphabet_of(&["€"]);
    let trie = trie_of(&["schedules/0", "schedules/heartbeat", "schedules/daily"], &["schedules/nested"], &alphabet);
    let node = trie.get(&["schedules"]).unwrap();
    assert_eq!(schedule_candidates(node), vec!["daily".to_string(), "heartbeat".to_string()]);
}

// --- states ---

#[test]
fn test_state_activated() {
    let sub = StatesSubsystem::new();
    let ev = event(FsEventKind::Assert, &["states", "1"], Scope::States);
    let effects = sub.handle(&ev, &no_trie());
    assert_eq!(effects.len(), 2);
    assert!(touch_contains(&effects[0], "state 1 activated"));
    assert!(touches(&effects[1], "events/!state_1_active"));
}

#[test]
fn test_state_deactivated() {
    let sub = StatesSubsystem::new();
    let ev = event(FsEventKind::Retract, &["states", "1"], Scope::States);
    let effects = sub.handle(&ev, &no_trie());
    assert_eq!(effects.len(), 2);
    match &effects[1] {
        Effect::Remove { path } => assert_eq!(path, "events/!state_1_active"),
        _ => panic!("Expected Remove"),
    }
}

#[test]
fn test_transition_definitions_ignored() {
    let sub = StatesSubsystem::new();
    let ev = event(FsEventKind::Assert, &["states", "-transitions", "0", "1"], Scope::States);
    assert!(sub.handle(&ev, &no_trie()).is_empty());
}

// --- subscriptions ---

#[test]
fn test_subscription_created() {
    let sub = SubscriptionsSubsystem::new();
    let ev = event(FsEventKind::Assert, &["subscriptions", "001", "events", "!boot"], Scope::Subscriptions);
    let effects = sub.handle(&ev, &no_trie());
    assert_eq!(effects.len(), 1);
    assert!(touch_contains(&effects[0], "subscribe 001"));
    assert!(touch_contains(&effects[0], "events/!boot"));
}

#[test]
fn test_unsubscription() {
    let sub = SubscriptionsSubsystem::new();
    let ev = event(FsEventKind::Retract, &["subscriptions", "042", "jobs", "1", "!completed"], Scope::Subscriptions);
    assert_eq!(sub.handle(&ev, &no_trie()).len(), 1);
}

#[test]
fn subscriptions_test_short_path_ignored() {
    let sub = SubscriptionsSubsystem::new();
    let ev = event(FsEventKind::Assert, &["subscriptions"], Scope::Subscriptions);
    assert!(sub.handle(&ev, &no_trie()).is_empty());
}

// --- workers ---

#[test]
fn test_worker_state_change() {
    let sub = WorkersSubsystem::new();
    let ev = event(FsEventKind::Assert, &["workers", "1", "-state", "idle"], Scope::Workers);
    let effects = sub.handle(&ev, &no_trie());
    assert_eq!(effects.len(), 2);
    assert!(touches(&effects[1], "events/!worker_1_idle"));
}

#[test]
fn test_worker_job_assignment() {
    let sub = WorkersSubsystem::new();
    let ev = event(FsEventKind::Assert, &["workers", "1", "-assigned", "jobs", "42"], Scope::Workers);
    let effects = sub.handle(&ev, &no_trie());
    assert_eq!(effects.len(), 2);
    assert!(effects.iter().any(|e| touches(e, "events/!worker_1_assigned_42")));
}

#[test]
fn test_worker_job_unassignment() {
    let sub = WorkersSubsystem::new();
    let ev = event(FsEventKind::Retract, &["workers", "1", "-assigned", "jobs", "42"], Scope::Workers);
    let effects = sub.handle(&ev, &no_trie());
    assert_eq!(effects.len(), 2);
    assert!(effects
        .iter()
        .any(|e| matches!(e, Effect::Remove { path } if path == "events/!worker_1_assigned_42")));
}

#[test]
fn test_new_worker_registered() {
    let sub = WorkersSubsystem::new();
    let ev = event(FsEventKind::Assert, &["workers", "3", "-expected", "type", "worker"], Scope::Workers);
    let effects = sub.handle(&ev, &no_trie());
    assert!(effects.iter().any(|e| touch_contains(e, "worker 3 registered")));
}

#[test]
fn workers_test_anchor_ignored() {
    let sub = WorkersSubsystem::new();
    let ev = event(FsEventKind::Assert, &["workers", "0"], Scope::Workers);
    assert!(sub.handle(&ev, &no_trie()).is_empty());
}

#[test]
fn assigned_job_actions_run_and_complete() {
    let alphabet = alphabet_of(&["-", "!", "€"]);
    let trie = trie_of(
        &[
            "jobs/7/-action/touch/out/done",
            "jobs/7/-action/emit/ping",
            "jobs/7/-action/emit/!pong",
            "jobs/7/-action/write/reports/(all good)",
            "jobs/7/-action/write/plain",
            "jobs/7/-action/remove/tmp/scratch",
        ],
        &[],
        &alphabet,
    );
    let effects = WorkersSubsystem::execute_assigned_job("1", "7", &trie);
    assert_eq!(
        effects,
        vec![
            Effect::Touch { path: "out/done".to_string() },
            Effect::Touch { path: "events/!pong".to_string() },
            Effect::Touch { path: "events/!ping".to_string() },
            Effect::Touch { path: "plain".to_string() },
            Effect::Touch { path: "reports/((all good))".to_string() },
            Effect::Remove { path: "tmp/scratch".to_string() },
            Effect::Touch { path: "jobs/7/-state/completed".to_string() },
            Effect::Touch { path: "events/!job_7_completed".to_string() },
        ]
    );
    assert!(WorkersSubsystem::execute_assigned_job("1", "8", &trie).is_empty());
    let shared = Arc::new(RwLock::new(trie));
    let sub = WorkersSubsystem::new_with_trie(Arc::clone(&shared));
    let ev = event(FsEventKind::Assert, &["workers", "1", "-assigned", "jobs", "7"], Scope::Workers);
    assert_eq!(sub.handle(&ev, &shared.read().unwrap()).len(), 2 + 8);
    // Without a trie of its own the subsystem does not run the job.
    assert_eq!(WorkersSubsystem::new().handle(&ev, &shared.read().unwrap()).len(), 2);
}

// --- registry ---

#[test]
fn registry_routes_by_scope() {
    let mut registry = SubsystemRegistry::new();
    assert!(registry.is_empty());
    registry.register(Box::new(StatesSubsystem::new()));
    registry.register(Box::new(JobsSubsystem::new()));
    assert_eq!(registry.len(), 2);
    let ev = event(FsEventKind::Assert, &["states", "1"], Scope::States);
    assert_eq!(registry.dispatch(&ev, &no_trie()).len(), 2);
    let ev = event(FsEventKind::Assert, &["workers", "1", "-state", "idle"], Scope::Workers);
    assert!(registry.dispatch(&ev, &no_trie()).is_empty());
}
