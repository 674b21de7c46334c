//! The `schedules/` scope: a scheduled task is a zero-byte file whose
//! modification time is its next firing time. Firing a task touches
//! `events/!schedule_{name}` and logs it.
use vstd::prelude::*;
use crate::trie::Trie;
use crate::dispatcher::Scope;
use crate::effector::{Effect, EffectView, effects_view};
use crate::strings::{concat, concat3, str_eq, strings_view};
use crate::subsystems::logs::{log_path, LogsSubsystem};
use crate::subsystems::{FsEvent, FsEventKind, Subsystem};
use crate::trie::TrieNode;

verus! {

/// The effects of an event in `schedules/`: registering or removing the
/// task `segs[1]` is logged.
pub open spec fn schedule_effects(kind: FsEventKind, segs: Seq<Seq<char>>, stamp: Seq<char>) -> Seq<EffectView> {
    if segs.len() < 2 {
        Seq::empty()
    } else {
        match kind {
            FsEventKind::Assert => seq![EffectView::Touch(log_path(stamp, "schedule "@ + segs[1] + " registered"@))],
            FsEventKind::Retract => seq![EffectView::Touch(log_path(stamp, "schedule "@ + segs[1] + " removed"@))],
            FsEventKind::Transform => Seq::empty(),
        }
    }
}

/// The effects of firing the task `name`.
pub open spec fn fire_effects(name: Seq<char>, stamp: Seq<char>) -> Seq<EffectView> {
    seq![
        EffectView::Touch("events/!schedule_"@ + name),
        EffectView::Touch(log_path(stamp, "schedule "@ + name + " fired"@)),
    ]
}

/// Firing a task raises a signal below `events/` that names the task and
/// nothing else: it does not depend on the time stamp, and different tasks
/// raise different signals.
pub proof fn lemma_firing_signals_name_the_task(a: Seq<char>, b: Seq<char>, s1: Seq<char>, s2: Seq<char>)
    ensures
        fire_effects(a, s1)[0] == fire_effects(a, s2)[0],
        fire_effects(a, s1)[0] == fire_effects(b, s2)[0] <==> a == b,
        fire_effects(a, s1)[0] matches EffectView::Touch(p) && crate::strings::is_prefix("events/!"@, p),
{
    let pa = "events/!schedule_"@ + a;
    let pb = "events/!schedule_"@ + b;
    if pa == pb {
        assert(a =~= pa.skip("events/!schedule_"@.len() as int));
        assert(b =~= pb.skip("events/!schedule_"@.len() as int));
    }
    reveal_strlit("events/!schedule_");
    reveal_strlit("events/!");
    assert(pa.subrange(0, "events/!"@.len() as int) =~= "events/!"@);
}

/// The subsystem of the `schedules/` scope.
pub struct SchedulerSubsystem;

impl SchedulerSubsystem {
    pub fn new() -> (s: SchedulerSubsystem) {
        SchedulerSubsystem
    }

    /// The effects of an event, with log entries stamped `stamp`.
    pub fn handle_at(&self, event: &FsEvent, stamp: &str) -> (r: Vec<Effect>)
        ensures
            effects_view(r@) == schedule_effects(event@.0, event@.1, stamp@),
    {
        let mut effects: Vec<Effect> = Vec::new();
        if event.segments.len() < 2 {
            assert(effects_view(effects@) =~= Seq::<EffectView>::empty());
            return effects;
        }
        let name = event.segments[1].as_str();
        match event.kind {
            FsEventKind::Assert => {
                let msg = concat3("schedule ", name, " registered");
                effects.push(LogsSubsystem::log_effect_at(stamp, msg.as_str()));
            },
            FsEventKind::Retract => {
                let msg = concat3("schedule ", name, " removed");
                effects.push(LogsSubsystem::log_effect_at(stamp, msg.as_str()));
            },
            FsEventKind::Transform => {},
        }
        assert(effects_view(effects@) =~= schedule_effects(event@.0, event@.1, stamp@));
        effects
    }
}

impl Subsystem for SchedulerSubsystem {
    open spec fn spec_scope(&self) -> Scope {
        Scope::Schedules
    }

    /// Its answers: what `handle_at` gives with the stamp of some moment.
    open spec fn answers(&self, event: (FsEventKind, Seq<Seq<char>>, Scope), trie: Trie, effects: Seq<EffectView>) -> bool {
        exists|stamp: Seq<char>| effects == #[trigger] schedule_effects(event.0, event.1, stamp)
    }

    fn scope(&self) -> (s: Scope) {
        Scope::Schedules
    }

    /// The effects of `handle_at`, stamped with the current time.
    fn handle(&self, event: &FsEvent, trie: &Trie) -> (r: Vec<Effect>) {
        let stamp = crate::clock::utc_stamp();
        let r = self.handle_at(event, stamp.as_str());
        assert(effects_view(r@) == schedule_effects(event@.0, event@.1, stamp@));
        r
    }
}

/// Fire the task `task_name` when its time `mtime` has come by `now`
/// (times in nanoseconds since the Unix epoch): the firing effects, with the
/// log entry stamped `stamp`; `None` when the time lies in the future.
pub fn check_schedule_at(task_name: &str, mtime: u64, now: u64, stamp: &str) -> (r: Option<Vec<Effect>>)
    ensures
        match r {
            Some(v) => mtime <= now && effects_view(v@) == fire_effects(task_name@, stamp@),
            None => mtime > now,
        },
{
    if mtime <= now {
        let mut effects: Vec<Effect> = Vec::new();
        effects.push(Effect::Touch { path: concat("events/!schedule_", task_name) });
        let msg = concat3("schedule ", task_name, " fired");
        effects.push(LogsSubsystem::log_effect_at(stamp, msg.as_str()));
        assert(effects_view(effects@) =~= fire_effects(task_name@, stamp@));
        Some(effects)
    } else {
        None
    }
}

/// Fire the task `task_name` if its time `mtime` has come, reading the
/// clock. Whether it fires depends on the moment read: it fires when `mtime`
/// is not after that moment (so always when `mtime` is 0), with the firing
/// effects, and skips when `mtime` lies after it.
pub fn check_schedule(task_name: &str, mtime: u64) -> (r: Option<Vec<Effect>>)
    ensures
        match r {
            Some(v) => exists|stamp: Seq<char>| effects_view(v@) == #[trigger] fire_effects(task_name@, stamp),
            // skipped: `mtime` lies after a moment of the clock, which is at least 0
            None => mtime > 0,
        },
{
    let now = crate::clock::now_nanos();
    let stamp = crate::clock::utc_stamp();
    let r = check_schedule_at(task_name, mtime, now, stamp.as_str());
    match &r {
        Some(v) => {
            assert(mtime <= now && effects_view(v@) == fire_effects(task_name@, stamp@));
        },
        None => {
            assert(mtime > now);
        },
    }
    r
}

/// Whether a child of `schedules/` is a task: a file, and not the empty
/// anchor `0`.
pub open spec fn is_task(c: TrieNode) -> bool {
    c.is_file && !(c.segment@ == "0"@ && c.children@.len() == 0)
}

/// The tasks among the children `cs`, in order.
pub open spec fn tasks_of(cs: Seq<TrieNode>) -> Seq<Seq<char>> {
    cs.filter(|c: TrieNode| is_task(c)).map_values(|c: TrieNode| c.segment@)
}

/// The names of the tasks below the `schedules/` node, in order: the ones a
/// tick reads the time of.
pub fn schedule_candidates(node: &TrieNode) -> (r: Vec<String>)
    ensures
        strings_view(r@) == tasks_of(node.children@),
{
    let mut names: Vec<String> = Vec::new();
    let mut i: usize = 0;
    while i < node.children.len()
        invariant
            i <= node.children@.len(),
            strings_view(names@) == tasks_of(node.children@.take(i as int)),
        decreases node.children@.len() - i,
    {
        let c = &node.children[i];
        let ghost pre = node.children@.take(i as int);
        assert(node.children@.take(i + 1) == pre.push(*c));
        proof {
            pre.lemma_filter_push(*c, |c: TrieNode| is_task(c));
        }
        let anchor = str_eq(c.segment.as_str(), "0") && c.children.len() == 0;
        if c.is_file && !anchor {
            let ghost before = names@;
            names.push(c.segment.clone());
            proof {
                crate::strings::lemma_strings_view_push(before, c.segment);
            }
            assert(strings_view(names@) =~= tasks_of(node.children@.take(i + 1)));
        } else {
            assert(strings_view(names@) =~= tasks_of(node.children@.take(i + 1)));
        }
        i += 1;
    }
    assert(node.children@.take(node.children@.len() as int) == node.children@);
    names
}

} // verus!
