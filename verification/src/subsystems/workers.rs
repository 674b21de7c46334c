//! The `workers/` scope. A worker `workers/{id}/` has a state under
//! `-state/` and jobs assigned under `-assigned/jobs/`. Assigning a job runs
//! the actions the job declares under `jobs/{job}/-action/` and completes it.
use std::sync::{Arc, RwLock};
use vstd::prelude::*;
use crate::dispatcher::Scope;
use crate::effector::{Effect, EffectView, effects_view};
use crate::strings::{concat, concat3, concat4, join_seq, join_strings, owned, starts_with_char, str_eq, strings_view};
use crate::subsystems::logs::{log_path, LogsSubsystem};
use crate::subsystems::{trie_when, leaf_effects, push_leaf_effects, segment_is, FsEvent, FsEventKind, Subsystem};
use crate::trie::{descend, lookup, Trie, TrieNode};

verus! {

/// The log entries and signals of a worker event on the path `segs`
/// (worker `segs[1]`): entering a state logs and signals
/// `events/!worker_{id}_{state}`, an assigned job `segs[4]` below
/// `-assigned/jobs` logs and signals `events/!worker_{id}_assigned_{job}`,
/// the declaration `-expected/type/worker` logs the new worker; leaving a
/// state removes its signal, unassigning a job logs and removes its signal.
pub open spec fn worker_signal_effects(kind: FsEventKind, segs: Seq<Seq<char>>, stamp: Seq<char>) -> Seq<EffectView> {
    let id = segs[1];
    let is_state = segs.len() >= 4 && segs[2] == "-state"@;
    let is_assigned = segs.len() >= 5 && segs[2] == "-assigned"@ && segs[3] == "jobs"@;
    match kind {
        FsEventKind::Assert => {
            (if is_state {
                seq![
                    EffectView::Touch(log_path(stamp, "worker "@ + id + " state "@ + segs[3])),
                    EffectView::Touch("events/!worker_"@ + id + "_"@ + segs[3]),
                ]
            } else {
                Seq::empty()
            }) + (if is_assigned {
                seq![
                    EffectView::Touch(log_path(stamp, "worker "@ + id + " assigned job "@ + segs[4])),
                    EffectView::Touch("events/!worker_"@ + id + "_assigned_"@ + segs[4]),
                ]
            } else {
                Seq::empty()
            }) + (if segs.len() == 5 && segs[2] == "-expected"@ && segs[3] == "type"@ && segs[4] == "worker"@ {
                seq![EffectView::Touch(log_path(stamp, "worker "@ + id + " registered"@))]
            } else {
                Seq::empty()
            })
        },
        FsEventKind::Retract => {
            (if is_state {
                seq![EffectView::Remove("events/!worker_"@ + id + "_"@ + segs[3])]
            } else {
                Seq::empty()
            }) + (if is_assigned {
                seq![
                    EffectView::Touch(log_path(stamp, "worker "@ + id + " unassigned job "@ + segs[4])),
                    EffectView::Remove("events/!worker_"@ + id + "_assigned_"@ + segs[4]),
                ]
            } else {
                Seq::empty()
            })
        },
        FsEventKind::Transform => Seq::empty(),
    }
}

/// The signal a job's `emit` action names: as it is when it starts with
/// `!`, else with `!` in front.
pub open spec fn signal_name(s: Seq<char>) -> Seq<char> {
    if s.len() > 0 && s[0] == '!' { s } else { seq!['!'] + s }
}

/// The path a job's `write` action writes: a childless `write/{path}`
/// touches `{path}`; otherwise the last child is the content and the others
/// extend the path, giving `{path}/.../({content})` (or the bare path for an
/// empty content).
pub open spec fn write_target(c: TrieNode) -> Seq<char> {
    if c.children@.len() == 0 {
        c.segment@
    } else {
        let names = seq![c.segment@] + c.children@.map_values(|g: TrieNode| g.segment@);
        let content = names.last();
        let full = join_seq(names.drop_last(), "/"@);
        if content.len() == 0 { full } else { full + "/("@ + content + ")"@ }
    }
}

/// The effects of the actions below a job's `-action` node: its `touch`
/// leaves, its `emit` signals, its `write` targets, its `remove` leaves.
pub open spec fn action_effects(a: TrieNode) -> Seq<EffectView> {
    (match lookup(a, seq!["touch"@]) {
        Some(t) => leaf_effects(t, false),
        None => Seq::empty(),
    }) + (match lookup(a, seq!["emit"@]) {
        Some(e) => e.children@.map_values(|c: TrieNode| EffectView::Touch("events/"@ + signal_name(c.segment@))),
        None => Seq::empty(),
    }) + (match lookup(a, seq!["write"@]) {
        Some(w) => w.children@.map_values(|c: TrieNode| EffectView::Touch(write_target(c))),
        None => Seq::empty(),
    }) + (match lookup(a, seq!["remove"@]) {
        Some(r) => leaf_effects(r, true),
        None => Seq::empty(),
    })
}

/// The effects of running the job `job` found in the trie: its actions,
/// then, if there were any, its completion (`-state/completed` and the
/// signal `events/!job_{job}_completed`).
pub open spec fn job_run_effects(root: TrieNode, job: Seq<char>) -> Seq<EffectView> {
    match lookup(root, seq!["jobs"@, job]) {
        None => Seq::empty(),
        Some(j) => {
            let acts = match lookup(j, seq!["-action"@]) {
                Some(a) => action_effects(a),
                None => Seq::empty(),
            };
            if acts.len() > 0 {
                acts + seq![
                    EffectView::Touch("jobs/"@ + job + "/-state/completed"@),
                    EffectView::Touch("events/!job_"@ + job + "_completed"@),
                ]
            } else {
                Seq::empty()
            }
        },
    }
}

/// The effects of a worker event: nothing without a worker or for the
/// anchor worker `0` itself; else its signals, then, for a path through
/// `-assigned/jobs/{job}` and a trie at hand, the run of that job.
pub open spec fn worker_effects(kind: FsEventKind, segs: Seq<Seq<char>>, stamp: Seq<char>, trie: Option<Trie>) -> Seq<EffectView> {
    if segs.len() < 2 || (segs[1] == "0"@ && segs.len() <= 2) {
        Seq::empty()
    } else {
        worker_signal_effects(kind, segs, stamp) + if segs.len() >= 5 && segs[2] == "-assigned"@ && segs[3] == "jobs"@ {
            match trie {
                Some(t) => job_run_effects(t.root, segs[4]),
                None => Seq::empty(),
            }
        } else {
            Seq::empty()
        }
    }
}

fn push_emit_effects(e: &TrieNode, effects: &mut Vec<Effect>)
    ensures
        effects_view(final(effects)@) == effects_view(old(effects)@) + e.children@.map_values(
            |c: TrieNode| EffectView::Touch("events/"@ + signal_name(c.segment@)),
        ),
{
    let ghost start = effects_view(effects@);
    let ghost all = e.children@.map_values(|c: TrieNode| EffectView::Touch("events/"@ + signal_name(c.segment@)));
    let mut i: usize = 0;
    while i < e.children.len()
        invariant
            i <= e.children@.len(),
            all == e.children@.map_values(|c: TrieNode| EffectView::Touch("events/"@ + signal_name(c.segment@))),
            effects_view(effects@) == start + all.take(i as int),
        decreases e.children@.len() - i,
    {
        let name = e.children[i].segment.as_str();
        let signal = if starts_with_char(name, '!') {
            owned(name)
        } else {
            proof {
                reveal_strlit("!");
                assert("!"@ =~= seq!['!']);
            }
            concat("!", name)
        };
        let eff = Effect::Touch { path: concat("events/", signal.as_str()) };
        assert(eff@ == all[i as int]);
        let ghost before = effects_view(effects@);
        let ghost raw = effects@;
        effects.push(eff);
        assert(effects@ == raw.push(eff));
        assert(effects_view(effects@) =~= before.push(all[i as int]));
        assert(all.take(i + 1) =~= all.take(i as int).push(all[i as int]));
        i += 1;
    }
    assert(all.take(all.len() as int) == all);
}

/// The path a `write` action writes.
fn write_path(c: &TrieNode) -> (r: String)
    ensures
        r@ == write_target(*c),
{
    if c.children.len() == 0 {
        return c.segment.clone();
    }
    let mut parts: Vec<String> = Vec::new();
    parts.push(c.segment.clone());
    let ghost names = seq![c.segment@] + c.children@.map_values(|g: TrieNode| g.segment@);
    let mut k: usize = 0;
    while k < c.children.len()
        invariant
            k <= c.children@.len(),
            names == seq![c.segment@] + c.children@.map_values(|g: TrieNode| g.segment@),
            strings_view(parts@) == names.take(k + 1),
        decreases c.children@.len() - k,
    {
        let ghost before = parts@;
        parts.push(c.children[k].segment.clone());
        proof {
            crate::strings::lemma_strings_view_push(before, c.children@[k as int].segment);
        }
        assert(names.take(k + 2) =~= names.take(k + 1).push(names[k + 1]));
        k += 1;
    }
    assert(names.take(c.children@.len() + 1 as int) == names);
    let content = match parts.pop() {
        Some(s) => s,
        None => String::new(),
    };
    assert(content@ == names.last());
    assert(strings_view(parts@) =~= names.drop_last());
    let full = join_strings(parts.as_slice(), "/");
    if content.as_str().unicode_len() == 0 {
        full
    } else {
        concat4(full.as_str(), "/(", content.as_str(), ")")
    }
}

fn push_write_effects(w: &TrieNode, effects: &mut Vec<Effect>)
    ensures
        effects_view(final(effects)@) == effects_view(old(effects)@) + w.children@.map_values(
            |c: TrieNode| EffectView::Touch(write_target(c)),
        ),
{
    let ghost start = effects_view(effects@);
    let ghost all = w.children@.map_values(|c: TrieNode| EffectView::Touch(write_target(c)));
    let mut i: usize = 0;
    while i < w.children.len()
        invariant
            i <= w.children@.len(),
            all == w.children@.map_values(|c: TrieNode| EffectView::Touch(write_target(c))),
            effects_view(effects@) == start + all.take(i as int),
        decreases w.children@.len() - i,
    {
        let eff = Effect::Touch { path: write_path(&w.children[i]) };
        assert(eff@ == all[i as int]);
        let ghost before = effects_view(effects@);
        let ghost raw = effects@;
        effects.push(eff);
        assert(effects@ == raw.push(eff));
        assert(effects_view(effects@) =~= before.push(all[i as int]));
        assert(all.take(i + 1) =~= all.take(i as int).push(all[i as int]));
        i += 1;
    }
    assert(all.take(all.len() as int) == all);
}

/// The subsystem of the `workers/` scope, with the shared trie when jobs
/// are to be run.
pub struct WorkersSubsystem {
    trie: Option<Arc<RwLock<Trie>>>,
}

impl WorkersSubsystem {
    /// Without a trie: assignments are signalled, jobs are not run.
    pub fn new() -> (s: WorkersSubsystem)
        ensures
            !s.runs_jobs(),
    {
        WorkersSubsystem { trie: None }
    }

    /// With the shared trie: assigned jobs are run.
    pub fn new_with_trie(trie: Arc<RwLock<Trie>>) -> (s: WorkersSubsystem)
        ensures
            s.runs_jobs(),
    {
        WorkersSubsystem { trie: Some(trie) }
    }

    /// Whether the subsystem runs assigned jobs.
    pub closed spec fn runs_jobs(&self) -> bool {
        self.trie is Some
    }

    /// The worker an event is about: the second segment, if there is one.
    pub fn worker_id(event: &FsEvent) -> (r: Option<&str>)
        ensures
            match r {
                Some(id) => event@.1.len() >= 2 && id@ == event@.1[1],
                None => event@.1.len() < 2,
            },
    {
        if event.segments.len() >= 2 {
            Some(event.segments[1].as_str())
        } else {
            None
        }
    }

    /// Run the job `job_id` assigned to a worker: the effects of its
    /// declared actions, then its completion when there were any.
    pub fn execute_assigned_job(worker_id: &str, job_id: &str, trie: &Trie) -> (r: Vec<Effect>)
        ensures
            effects_view(r@) == job_run_effects(trie.root, job_id@),
    {
        let mut effects: Vec<Effect> = Vec::new();
        let path = vec!["jobs", job_id];
        assert(crate::strings::strs_view(path@) =~= seq!["jobs"@, job_id@]);
        let job_root = match trie.get(path.as_slice()) {
            Some(j) => j,
            None => {
                assert(effects_view(effects@) =~= Seq::<EffectView>::empty());
                return effects;
            },
        };
        let action_path = vec!["-action"];
        assert(crate::strings::strs_view(action_path@) =~= seq!["-action"@]);
        match descend(job_root, action_path.as_slice()) {
            Some(a) => {
                let touch = vec!["touch"];
                assert(crate::strings::strs_view(touch@) =~= seq!["touch"@]);
                match descend(a, touch.as_slice()) {
                    Some(t) => push_leaf_effects(t, false, &mut effects),
                    None => {},
                }
                let ghost after_touch = effects_view(effects@);
                let emit = vec!["emit"];
                assert(crate::strings::strs_view(emit@) =~= seq!["emit"@]);
                match descend(a, emit.as_slice()) {
                    Some(e) => push_emit_effects(e, &mut effects),
                    None => {},
                }
                let ghost after_emit = effects_view(effects@);
                let write = vec!["write"];
                assert(crate::strings::strs_view(write@) =~= seq!["write"@]);
                match descend(a, write.as_slice()) {
                    Some(w) => push_write_effects(w, &mut effects),
                    None => {},
                }
                let remove = vec!["remove"];
                assert(crate::strings::strs_view(remove@) =~= seq!["remove"@]);
                match descend(a, remove.as_slice()) {
                    Some(r) => push_leaf_effects(r, true, &mut effects),
                    None => {},
                }
                assert(effects_view(effects@) =~= action_effects(*a));
            },
            None => {
                assert(effects_view(effects@) =~= Seq::<EffectView>::empty());
            },
        }
        if effects.len() > 0 {
            let ghost acts = effects_view(effects@);
            effects.push(Effect::Touch { path: concat3("jobs/", job_id, "/-state/completed") });
            effects.push(Effect::Touch { path: concat3("events/!job_", job_id, "_completed") });
            assert(effects_view(effects@) =~= job_run_effects(trie.root, job_id@));
        } else {
            assert(effects_view(effects@) =~= job_run_effects(trie.root, job_id@));
        }
        effects
    }

    /// The signals and log entries of a worker event, stamped `stamp`.
    fn signal_effects(event: &FsEvent, id: &str, stamp: &str) -> (r: Vec<Effect>)
        requires
            event@.1.len() >= 2,
            id@ == event@.1[1],
        ensures
            effects_view(r@) == worker_signal_effects(event@.0, event@.1, stamp@),
    {
        let mut effects: Vec<Effect> = Vec::new();
        let is_state = event.segments.len() >= 4 && segment_is(&event.segments, 2, "-state");
        let is_assigned = event.segments.len() >= 5 && segment_is(&event.segments, 2, "-assigned") && segment_is(
            &event.segments,
            3,
            "jobs",
        );
        match event.kind {
            FsEventKind::Assert => {
                if is_state {
                    let state = event.segments[3].as_str();
                    let msg = concat4("worker ", id, " state ", state);
                    effects.push(LogsSubsystem::log_effect_at(stamp, msg.as_str()));
                    effects.push(Effect::Touch { path: concat4("events/!worker_", id, "_", state) });
                }
                if is_assigned {
                    let job = event.segments[4].as_str();
                    let msg = concat4("worker ", id, " assigned job ", job);
                    effects.push(LogsSubsystem::log_effect_at(stamp, msg.as_str()));
                    effects.push(Effect::Touch { path: concat4("events/!worker_", id, "_assigned_", job) });
                }
                if event.segments.len() == 5 && segment_is(&event.segments, 2, "-expected") && segment_is(
                    &event.segments,
                    3,
                    "type",
                ) && segment_is(&event.segments, 4, "worker") {
                    let msg = concat3("worker ", id, " registered");
                    effects.push(LogsSubsystem::log_effect_at(stamp, msg.as_str()));
                }
            },
            FsEventKind::Retract => {
                if is_state {
                    let state = event.segments[3].as_str();
                    effects.push(Effect::Remove { path: concat4("events/!worker_", id, "_", state) });
                }
                if is_assigned {
                    let job = event.segments[4].as_str();
                    let msg = concat4("worker ", id, " unassigned job ", job);
                    effects.push(LogsSubsystem::log_effect_at(stamp, msg.as_str()));
                    effects.push(Effect::Remove { path: concat4("events/!worker_", id, "_assigned_", job) });
                }
            },
            FsEventKind::Transform => {},
        }
        assert(effects_view(effects@) =~= worker_signal_effects(event@.0, event@.1, stamp@));
        effects
    }

    /// The effects of an event with log entries stamped `stamp`, jobs read
    /// from `trie` when one is given.
    pub fn handle_at(event: &FsEvent, stamp: &str, trie: Option<&Trie>) -> (r: Vec<Effect>)
        ensures
            effects_view(r@) == worker_effects(event@.0, event@.1, stamp@, match trie {
                Some(t) => Some(*t),
                None => None,
            }),
    {
        let id = match Self::worker_id(event) {
            Some(id) => id,
            None => {
                let r: Vec<Effect> = Vec::new();
                assert(effects_view(r@) =~= Seq::<EffectView>::empty());
                return r;
            },
        };
        if str_eq(id, "0") && event.segments.len() <= 2 {
            let r: Vec<Effect> = Vec::new();
            assert(effects_view(r@) =~= Seq::<EffectView>::empty());
            return r;
        }
        let mut effects = Self::signal_effects(event, id, stamp);
        let ghost signals = effects_view(effects@);
        if event.segments.len() >= 5 && segment_is(&event.segments, 2, "-assigned") && segment_is(
            &event.segments,
            3,
            "jobs",
        ) {
            match trie {
                Some(t) => {
                    let mut more = Self::execute_assigned_job(id, event.segments[4].as_str(), t);
                    let ghost m = effects_view(more@);
                    effects.append(&mut more);
                    assert(effects_view(effects@) =~= signals + m);
                },
                None => {
                    assert(effects_view(effects@) =~= signals + Seq::<EffectView>::empty());
                },
            }
        } else {
            assert(effects_view(effects@) =~= signals + Seq::<EffectView>::empty());
        }
        effects
    }
}

impl Subsystem for WorkersSubsystem {
    open spec fn spec_scope(&self) -> Scope {
        Scope::Workers
    }

    /// Its answers: what `handle_at` gives with the stamp of some moment,
    /// with the trie when the subsystem has one.
    open spec fn answers(&self, event: (FsEventKind, Seq<Seq<char>>, Scope), trie: Trie, effects: Seq<EffectView>) -> bool {
        exists|stamp: Seq<char>| effects == #[trigger] worker_effects(event.0, event.1, stamp, trie_when(self.runs_jobs(), trie))
    }

    fn scope(&self) -> (s: Scope) {
        Scope::Workers
    }

    /// The effects of `handle_at`, stamped with the current time, on the
    /// given trie when the subsystem has one.
    fn handle(&self, event: &FsEvent, trie: &Trie) -> (r: Vec<Effect>) {
        let stamp = crate::clock::utc_stamp();
        let t = if self.trie.is_some() { Some(trie) } else { None };
        let r = Self::handle_at(event, stamp.as_str(), t);
        assert(effects_view(r@) == worker_effects(event@.0, event@.1, stamp@, trie_when(self.runs_jobs(), *trie)));
        r
    }
}

} // verus!
