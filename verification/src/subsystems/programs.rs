//! The `programs/` scope: programs are directory trees that encode state
//! machines. `!run` enters the initial state from `-entry/-state/`, runs its
//! actions (`touch`, `schedule`, `remove` below
//! `-states/{state}/-action/`) and follows every transition whose
//! `-condition/` holds, up to ten in a row.
use std::sync::{Arc, RwLock};
use vstd::prelude::*;
use crate::dispatcher::Scope;
use crate::effector::{Effect, EffectView, effects_view};
use crate::parser::{split_seq, split_str};
use crate::strings::{concat, concat3, concat4, concat6, join_seq, str_eq, strings_view, strs_view};
use crate::subsystems::logs::{log_path, LogsSubsystem};
use crate::subsystems::{trie_when, leaf_effects, leaf_target, push_leaf_effects, segment_is, FsEvent, FsEventKind, Subsystem};
use crate::trie::{descend, leaves, lookup, Trie, TrieNode};

verus! {

/// How far in the future a `schedule` action arms its task: two minutes,
/// in nanoseconds.
pub const SCHEDULE_DELAY: u64 = 120_000_000_000;

/// The time a `schedule` action arms at, `now` plus the delay (saturated at
/// the largest time).
pub open spec fn armed_at(now: u64) -> u64 {
    if now <= u64::MAX - SCHEDULE_DELAY { (now + SCHEDULE_DELAY) as u64 } else { u64::MAX }
}

/// The initial state of a program: the first child of `-entry/-state`.
pub open spec fn initial_state(prog: TrieNode) -> Option<Seq<char>> {
    match lookup(prog, seq!["-entry"@, "-state"@]) {
        Some(n) => if n.children@.len() > 0 { Some(n.children@[0].segment@) } else { None },
        None => None,
    }
}

/// A condition holds when some leaf path declared below it names a node of
/// the trie; only whole leaf paths count.
pub open spec fn condition_met(conditions: TrieNode, root: TrieNode) -> bool {
    let ls = leaves(conditions, Seq::empty());
    exists|i: int| 0 <= i < ls.len() && #[trigger] lookup(root, split_seq(leaf_target(ls[i]), '/')) is Some
}

/// A transition is ready when it has a `-condition` that holds.
pub open spec fn transition_ready(t: TrieNode, root: TrieNode) -> bool {
    match lookup(t, seq!["-condition"@]) {
        Some(c) => condition_met(c, root),
        None => false,
    }
}

/// The first of the transitions `ts` that is ready, by name.
pub open spec fn first_ready(ts: Seq<TrieNode>, root: TrieNode) -> Option<Seq<char>>
    decreases ts.len(),
{
    if ts.len() == 0 {
        None
    } else if transition_ready(ts[0], root) {
        Some(ts[0].segment@)
    } else {
        first_ready(ts.drop_first(), root)
    }
}

/// The state a program moves to from `state`: the first ready transition
/// below `-states/{state}/-transitions`.
pub open spec fn ready_transition(prog: TrieNode, state: Seq<char>, root: TrieNode) -> Option<Seq<char>> {
    match lookup(prog, seq!["-states"@, state, "-transitions"@]) {
        Some(t) => first_ready(t.children@, root),
        None => None,
    }
}

/// The effects of the actions of a state: its `touch` leaves, its
/// `schedule` tasks armed two minutes after `now`, its `remove` leaves.
pub open spec fn state_actions(prog: TrieNode, state: Seq<char>, now: u64) -> Seq<EffectView> {
    match lookup(prog, seq!["-states"@, state, "-action"@]) {
        None => Seq::empty(),
        Some(a) => (match lookup(a, seq!["touch"@]) {
            Some(t) => leaf_effects(t, false),
            None => Seq::empty(),
        }) + (match lookup(a, seq!["schedule"@]) {
            Some(s) => s.children@.map_values(
                |c: TrieNode| EffectView::TouchWithMtime("schedules/"@ + c.segment@, armed_at(now)),
            ),
            None => Seq::empty(),
        }) + (match lookup(a, seq!["remove"@]) {
            Some(r) => leaf_effects(r, true),
            None => Seq::empty(),
        }),
    }
}

/// The effects of moving the program `name` from `from` to `to`: the state
/// marker moves and a transition event is emitted.
pub open spec fn move_effects(name: Seq<char>, from: Seq<char>, to: Seq<char>) -> Seq<EffectView> {
    seq![
        EffectView::Remove("programs/"@ + name + "/-state/"@ + from),
        EffectView::Touch("programs/"@ + name + "/-state/"@ + to),
        EffectView::Touch("events/!program_"@ + name + "_transitioned_"@ + from + "_to_"@ + to),
    ]
}

/// The effects of following at most `k` ready transitions from `state`,
/// running the actions of each state entered.
pub open spec fn run_transitions(prog: TrieNode, root: TrieNode, name: Seq<char>, state: Seq<char>, now: u64, k: nat) -> Seq<EffectView>
    decreases k,
{
    if k == 0 {
        Seq::empty()
    } else {
        match ready_transition(prog, state, root) {
            None => Seq::empty(),
            Some(next) => move_effects(name, state, next) + state_actions(prog, next, now) + run_transitions(
                prog,
                root,
                name,
                next,
                now,
                (k - 1) as nat,
            ),
        }
    }
}

/// The effects of running the program `name` found in the trie: entering
/// its initial state (marker and event), that state's actions, then up to
/// ten transitions. A program without an initial state does nothing.
pub open spec fn program_run_effects(root: TrieNode, name: Seq<char>, now: u64) -> Seq<EffectView> {
    match lookup(root, seq!["programs"@, name]) {
        None => Seq::empty(),
        Some(prog) => match initial_state(prog) {
            None => Seq::empty(),
            Some(s) => seq![
                EffectView::Touch("programs/"@ + name + "/-state/"@ + s),
                EffectView::Touch("events/!program_"@ + name + "_entered_"@ + s),
            ] + state_actions(prog, s, now) + run_transitions(prog, root, name, s, now, 10),
        },
    }
}

/// The effects of an event in `programs/` for the program `segs[1]`:
/// `!run` logs, signals `events/!program_{name}_started` and, with a trie at
/// hand, runs the program; `!completed` logs and signals completion; the
/// declaration `-expected/type/program` logs the installation; removing
/// `!run` logs the stop.
pub open spec fn program_effects(kind: FsEventKind, segs: Seq<Seq<char>>, stamp: Seq<char>, now: u64, trie: Option<Trie>) -> Seq<EffectView> {
    if segs.len() < 2 {
        Seq::empty()
    } else {
        let name = segs[1];
        match kind {
            FsEventKind::Assert => (if segs.len() >= 3 && segs[2] == "!run"@ {
                seq![
                    EffectView::Touch(log_path(stamp, "program "@ + name + " started"@)),
                    EffectView::Touch("events/!program_"@ + name + "_started"@),
                ] + match trie {
                    Some(t) => program_run_effects(t.root, name, now),
                    None => Seq::empty(),
                }
            } else {
                Seq::empty()
            }) + (if segs.len() >= 3 && segs[2] == "!completed"@ {
                seq![
                    EffectView::Touch(log_path(stamp, "program "@ + name + " completed"@)),
                    EffectView::Touch("events/!program_"@ + name + "_completed"@),
                ]
            } else {
                Seq::empty()
            }) + (if segs.len() == 5 && segs[2] == "-expected"@ && segs[3] == "type"@ && segs[4] == "program"@ {
                seq![EffectView::Touch(log_path(stamp, "program "@ + name + " installed"@))]
            } else {
                Seq::empty()
            }),
            FsEventKind::Retract => if segs.len() >= 3 && segs[2] == "!run"@ {
                seq![EffectView::Touch(log_path(stamp, "program "@ + name + " stopped"@))]
            } else {
                Seq::empty()
            },
            FsEventKind::Transform => Seq::empty(),
        }
    }
}

/// One reactive step of a program that is in a state (the first child of
/// its `-state`): the first ready transition, with the new state's actions.
pub open spec fn program_step(prog: TrieNode, root: TrieNode, now: u64) -> Seq<EffectView> {
    match lookup(prog, seq!["-state"@]) {
        Some(sd) => if sd.children@.len() > 0 {
            let cur = sd.children@[0].segment@;
            match ready_transition(prog, cur, root) {
                Some(next) => move_effects(prog.segment@, cur, next) + state_actions(prog, next, now),
                None => Seq::empty(),
            }
        } else {
            Seq::empty()
        },
        None => Seq::empty(),
    }
}

/// The reactive steps of the programs `cs`, in order.
pub open spec fn steps_of(cs: Seq<TrieNode>, root: TrieNode, now: u64) -> Seq<EffectView>
    decreases cs.len(),
{
    if cs.len() == 0 {
        Seq::empty()
    } else {
        steps_of(cs.drop_last(), root, now) + program_step(cs.last(), root, now)
    }
}

/// The effects of re-evaluating every program below `programs/`: each
/// program in a state takes at most one ready transition.
pub open spec fn reevaluation(root: TrieNode, now: u64) -> Seq<EffectView> {
    match lookup(root, seq!["programs"@]) {
        Some(p) => steps_of(p.children@, root, now),
        None => Seq::empty(),
    }
}

/// The node at a `/`-separated path, found in the trie.
fn path_exists(trie: &Trie, path: &str) -> (r: bool)
    ensures
        r == (lookup(trie.root, split_seq(path@, '/')) is Some),
{
    let parts = split_str(path, '/');
    let mut refs: Vec<&str> = Vec::new();
    let mut i: usize = 0;
    while i < parts.len()
        invariant
            i <= parts@.len(),
            strs_view(refs@) == strings_view(parts@.take(i as int)),
        decreases parts@.len() - i,
    {
        let ghost before = refs@;
        let r = parts[i].as_str();
        refs.push(r);
        proof {
            crate::strings::lemma_strs_view_push(before, r);
        }
        assert(strings_view(parts@.take(i + 1)) =~= strings_view(parts@.take(i as int)).push(parts@[i as int]@));
        i += 1;
    }
    assert(parts@.take(parts@.len() as int) == parts@);
    trie.get(refs.as_slice()).is_some()
}

impl ProgramsSubsystem {
    /// Whether some leaf path declared below `conditions` exists in the trie.
    pub fn conditions_satisfied(conditions: &TrieNode, trie: &Trie) -> (r: bool)
        ensures
            r == condition_met(*conditions, trie.root),
    {
        let paths = conditions.leaf_paths();
        let ghost ls = leaves(*conditions, Seq::empty());
        assert(strings_view(paths@).len() == paths@.len());
        let mut i: usize = 0;
        while i < paths.len()
            invariant
                i <= paths@.len(),
                paths@.len() == ls.len(),
                ls == leaves(*conditions, Seq::empty()),
                strings_view(paths@) == ls.map_values(|p: Seq<Seq<char>>| join_seq(p, seq!['/'])),
                forall|j: int| 0 <= j < i ==> !(#[trigger] lookup(trie.root, split_seq(leaf_target(ls[j]), '/')) is Some),
            decreases paths@.len() - i,
        {
            assert(strings_view(paths@)[i as int] == paths@[i as int]@);
            assert(paths@[i as int]@ == leaf_target(ls[i as int]));
            if path_exists(trie, paths[i].as_str()) {
                return true;
            }
            i += 1;
        }
        assert(strings_view(paths@).len() == paths@.len());
        false
    }

    /// The first transition from `current_state` whose condition holds, by name.
    pub fn find_ready_transition(prog_root: &TrieNode, current_state: &str, trie: &Trie) -> (r: Option<String>)
        ensures
            match r {
                Some(s) => ready_transition(*prog_root, current_state@, trie.root) == Some(s@),
                None => ready_transition(*prog_root, current_state@, trie.root) is None,
            },
    {
        let path = vec!["-states", current_state, "-transitions"];
        assert(strs_view(path@) =~= seq!["-states"@, current_state@, "-transitions"@]);
        let transitions = match descend(prog_root, path.as_slice()) {
            Some(t) => t,
            None => {
                return None;
            },
        };
        let ghost ts = transitions.children@;
        let mut i: usize = 0;
        assert(ts.skip(0) == ts);
        assert(ready_transition(*prog_root, current_state@, trie.root) == first_ready(ts, trie.root));
        while i < transitions.children.len()
            invariant
                i <= ts.len(),
                ts == transitions.children@,
                ready_transition(*prog_root, current_state@, trie.root) == first_ready(ts, trie.root),
                first_ready(ts, trie.root) == first_ready(ts.skip(i as int), trie.root),
            decreases ts.len() - i,
        {
            let t = &transitions.children[i];
            assert(ts.skip(i as int)[0] == *t);
            assert(ts.skip(i as int).drop_first() == ts.skip(i + 1));
            let cond = vec!["-condition"];
            assert(strs_view(cond@) =~= seq!["-condition"@]);
            let ready = match descend(t, cond.as_slice()) {
                Some(c) => Self::conditions_satisfied(c, trie),
                None => false,
            };
            assert(ready == transition_ready(*t, trie.root));
            if ready {
                let name = t.segment.clone();
                assert(first_ready(ts.skip(i as int), trie.root) == Some(t.segment@));
                return Some(name);
            }
            i += 1;
        }
        assert(ts.skip(i as int).len() == 0);
        None
    }

    /// Append the effects of the actions of `state`.
    pub fn execute_state_actions(prog_root: &TrieNode, state: &str, now: u64, effects: &mut Vec<Effect>)
        ensures
            effects_view(final(effects)@) == effects_view(old(effects)@) + state_actions(*prog_root, state@, now),
    {
        let ghost start = effects_view(effects@);
        let path = vec!["-states", state, "-action"];
        assert(strs_view(path@) =~= seq!["-states"@, state@, "-action"@]);
        let actions = match descend(prog_root, path.as_slice()) {
            Some(a) => a,
            None => {
                assert(effects_view(effects@) =~= start + Seq::<EffectView>::empty());
                return;
            },
        };
        let touch = vec!["touch"];
        assert(strs_view(touch@) =~= seq!["touch"@]);
        match descend(actions, touch.as_slice()) {
            Some(t) => push_leaf_effects(t, false, effects),
            None => {},
        }
        let ghost after_touch = effects_view(effects@);
        let schedule = vec!["schedule"];
        assert(strs_view(schedule@) =~= seq!["schedule"@]);
        match descend(actions, schedule.as_slice()) {
            Some(s) => push_schedule_effects(s, now, effects),
            None => {},
        }
        let ghost after_schedule = effects_view(effects@);
        let remove = vec!["remove"];
        assert(strs_view(remove@) =~= seq!["remove"@]);
        match descend(actions, remove.as_slice()) {
            Some(r) => push_leaf_effects(r, true, effects),
            None => {},
        }
        assert(effects_view(effects@) =~= start + state_actions(*prog_root, state@, now));
    }

    /// Run the program `name` found in the trie, its `schedule` actions
    /// armed relative to `now`.
    pub fn execute_program(name: &str, trie: &Trie, now: u64) -> (r: Vec<Effect>)
        ensures
            effects_view(r@) == program_run_effects(trie.root, name@, now),
    {
        let mut effects: Vec<Effect> = Vec::new();
        let path = vec!["programs", name];
        assert(strs_view(path@) =~= seq!["programs"@, name@]);
        let prog = match trie.get(path.as_slice()) {
            Some(p) => p,
            None => {
                assert(effects_view(effects@) =~= Seq::<EffectView>::empty());
                return effects;
            },
        };
        let entry = vec!["-entry", "-state"];
        assert(strs_view(entry@) =~= seq!["-entry"@, "-state"@]);
        let state = match descend(prog, entry.as_slice()) {
            Some(sd) => {
                if sd.children.len() > 0 {
                    sd.children[0].segment.clone()
                } else {
                    assert(effects_view(effects@) =~= Seq::<EffectView>::empty());
                    return effects;
                }
            },
            None => {
                assert(effects_view(effects@) =~= Seq::<EffectView>::empty());
                return effects;
            },
        };
        effects.push(Effect::Touch { path: concat4("programs/", name, "/-state/", state.as_str()) });
        effects.push(Effect::Touch { path: concat4("events/!program_", name, "_entered_", state.as_str()) });
        Self::execute_state_actions(prog, state.as_str(), now, &mut effects);
        let ghost total = program_run_effects(trie.root, name@, now);
        let mut current = state;
        let mut k: usize = 0;
        assert(effects_view(effects@) + run_transitions(*prog, trie.root, name@, current@, now, 10) =~= total);
        while k < 10
            invariant
                k <= 10,
                lookup(trie.root, seq!["programs"@, name@]) == Some(*prog),
                total == program_run_effects(trie.root, name@, now),
                effects_view(effects@) + run_transitions(*prog, trie.root, name@, current@, now, (10 - k) as nat) == total,
            decreases 10 - k,
        {
            match Self::find_ready_transition(prog, current.as_str(), trie) {
                Some(next) => {
                    let ghost done = effects_view(effects@);
                    effects.push(Effect::Remove { path: concat4("programs/", name, "/-state/", current.as_str()) });
                    effects.push(Effect::Touch { path: concat4("programs/", name, "/-state/", next.as_str()) });
                    effects.push(Effect::Touch {
                        path: concat6("events/!program_", name, "_transitioned_", current.as_str(), "_to_", next.as_str()),
                    });
                    assert(effects_view(effects@) =~= done + move_effects(name@, current@, next@));
                    Self::execute_state_actions(prog, next.as_str(), now, &mut effects);
                    assert(effects_view(effects@) + run_transitions(*prog, trie.root, name@, next@, now, (10 - k - 1) as nat) =~= total);
                    current = next;
                },
                None => {
                    assert(effects_view(effects@) =~= total);
                    return effects;
                },
            }
            k += 1;
        }
        assert(effects_view(effects@) =~= total);
        effects
    }
}

fn push_schedule_effects(s: &TrieNode, now: u64, effects: &mut Vec<Effect>)
    ensures
        effects_view(final(effects)@) == effects_view(old(effects)@) + s.children@.map_values(
            |c: TrieNode| EffectView::TouchWithMtime("schedules/"@ + c.segment@, armed_at(now)),
        ),
{
    let ghost start = effects_view(effects@);
    let ghost all = s.children@.map_values(|c: TrieNode| EffectView::TouchWithMtime("schedules/"@ + c.segment@, armed_at(now)));
    let at = now.saturating_add(SCHEDULE_DELAY);
    let mut i: usize = 0;
    while i < s.children.len()
        invariant
            i <= s.children@.len(),
            at == armed_at(now),
            all == s.children@.map_values(|c: TrieNode| EffectView::TouchWithMtime("schedules/"@ + c.segment@, armed_at(now))),
            effects_view(effects@) == start + all.take(i as int),
        decreases s.children@.len() - i,
    {
        let eff = Effect::TouchWithMtime { path: concat("schedules/", s.children[i].segment.as_str()), mtime: at };
        assert(eff@ == all[i as int]);
        let ghost before = effects_view(effects@);
        let ghost raw = effects@;
        effects.push(eff);
        assert(effects@ == raw.push(eff));
        assert(effects_view(effects@) =~= before.push(all[i as int]));
        assert(all.take(i + 1) =~= all.take(i as int).push(all[i as int]));
        i += 1;
    }
    assert(all.take(all.len() as int) == all);
}

/// One reactive step of the program `prog`.
fn step_program(prog: &TrieNode, trie: &Trie, now: u64, effects: &mut Vec<Effect>)
    ensures
        effects_view(final(effects)@) == effects_view(old(effects)@) + program_step(*prog, trie.root, now),
{
    let ghost start = effects_view(effects@);
    let sp = vec!["-state"];
    assert(strs_view(sp@) =~= seq!["-state"@]);
    let state_dir = match descend(prog, sp.as_slice()) {
        Some(sd) => sd,
        None => {
            assert(effects_view(effects@) =~= start + Seq::<EffectView>::empty());
            return;
        },
    };
    if state_dir.children.len() == 0 {
        assert(effects_view(effects@) =~= start + Seq::<EffectView>::empty());
        return;
    }
    let current = state_dir.children[0].segment.as_str();
    match ProgramsSubsystem::find_ready_transition(prog, current, trie) {
        Some(next) => {
            let name = prog.segment.as_str();
            effects.push(Effect::Remove { path: concat4("programs/", name, "/-state/", current) });
            effects.push(Effect::Touch { path: concat4("programs/", name, "/-state/", next.as_str()) });
            effects.push(Effect::Touch {
                path: concat6("events/!program_", name, "_transitioned_", current, "_to_", next.as_str()),
            });
            assert(effects_view(effects@) =~= start + move_effects(prog.segment@, current@, next@));
            ProgramsSubsystem::execute_state_actions(prog, next.as_str(), now, effects);
            assert(effects_view(effects@) =~= start + program_step(*prog, trie.root, now));
        },
        None => {
            assert(effects_view(effects@) =~= start + Seq::<EffectView>::empty());
        },
    }
}

/// Re-evaluate every program against the trie: each program in a state
/// takes its first ready transition, if any; `schedule` actions are armed
/// relative to `now`.
pub fn reevaluate_programs_at(trie: &Trie, now: u64) -> (r: Vec<Effect>)
    ensures
        effects_view(r@) == reevaluation(trie.root, now),
{
    let mut effects: Vec<Effect> = Vec::new();
    let path = vec!["programs"];
    assert(strs_view(path@) =~= seq!["programs"@]);
    let programs = match trie.get(path.as_slice()) {
        Some(p) => p,
        None => {
            assert(effects_view(effects@) =~= Seq::<EffectView>::empty());
            return effects;
        },
    };
    let mut i: usize = 0;
    while i < programs.children.len()
        invariant
            i <= programs.children@.len(),
            effects_view(effects@) == steps_of(programs.children@.take(i as int), trie.root, now),
        decreases programs.children@.len() - i,
    {
        assert(programs.children@.take(i + 1).drop_last() == programs.children@.take(i as int));
        step_program(&programs.children[i], trie, now, &mut effects);
        i += 1;
    }
    assert(programs.children@.take(programs.children@.len() as int) == programs.children@);
    effects
}

/// Re-evaluate every program against the trie (as read under its lock) at
/// the current time.
pub fn reevaluate_programs(trie: &Trie) -> (r: Vec<Effect>)
    ensures
        exists|now: u64| effects_view(r@) == #[trigger] reevaluation(trie.root, now),
{
    let now = crate::clock::now_nanos();
    let r = reevaluate_programs_at(trie, now);
    assert(effects_view(r@) == reevaluation(trie.root, now));
    r
}

/// The subsystem of the `programs/` scope, with the shared trie when
/// programs are to be run.
pub struct ProgramsSubsystem {
    trie: Option<Arc<RwLock<Trie>>>,
}

impl ProgramsSubsystem {
    /// Without a trie: runs are signalled, programs are not executed.
    pub fn new() -> (s: ProgramsSubsystem)
        ensures
            !s.runs_programs(),
    {
        ProgramsSubsystem { trie: None }
    }

    /// With the shared trie: programs are executed on `!run`.
    pub fn new_with_trie(trie: Arc<RwLock<Trie>>) -> (s: ProgramsSubsystem)
        ensures
            s.runs_programs(),
    {
        ProgramsSubsystem { trie: Some(trie) }
    }

    /// Whether the subsystem executes programs.
    pub closed spec fn runs_programs(&self) -> bool {
        self.trie is Some
    }

    /// The effects of an event with log entries stamped `stamp`, programs
    /// read from `trie` when one is given and `schedule` actions armed
    /// relative to `now`.
    pub fn handle_at(event: &FsEvent, stamp: &str, now: u64, trie: Option<&Trie>) -> (r: Vec<Effect>)
        ensures
            effects_view(r@) == program_effects(event@.0, event@.1, stamp@, now, match trie {
                Some(t) => Some(*t),
                None => None,
            }),
    {
        let mut effects: Vec<Effect> = Vec::new();
        if event.segments.len() < 2 {
            assert(effects_view(effects@) =~= Seq::<EffectView>::empty());
            return effects;
        }
        let name = event.segments[1].as_str();
        let is_run = event.segments.len() >= 3 && segment_is(&event.segments, 2, "!run");
        match event.kind {
            FsEventKind::Assert => {
                if is_run {
                    let msg = concat3("program ", name, " started");
                    effects.push(LogsSubsystem::log_effect_at(stamp, msg.as_str()));
                    effects.push(Effect::Touch { path: concat3("events/!program_", name, "_started") });
                    let ghost signals = effects_view(effects@);
                    match trie {
                        Some(t) => {
                            let mut more = Self::execute_program(name, t, now);
                            let ghost m = effects_view(more@);
                            effects.append(&mut more);
                            assert(effects_view(effects@) =~= signals + m);
                        },
                        None => {
                            assert(effects_view(effects@) =~= signals + Seq::<EffectView>::empty());
                        },
                    }
                }
                let ghost after_run = effects_view(effects@);
                if event.segments.len() >= 3 && segment_is(&event.segments, 2, "!completed") {
                    let msg = concat3("program ", name, " completed");
                    effects.push(LogsSubsystem::log_effect_at(stamp, msg.as_str()));
                    effects.push(Effect::Touch { path: concat3("events/!program_", name, "_completed") });
                }
                let ghost after_completed = effects_view(effects@);
                if event.segments.len() == 5 && segment_is(&event.segments, 2, "-expected") && segment_is(
                    &event.segments,
                    3,
                    "type",
                ) && segment_is(&event.segments, 4, "program") {
                    let msg = concat3("program ", name, " installed");
                    effects.push(LogsSubsystem::log_effect_at(stamp, msg.as_str()));
                }
                assert(effects_view(effects@) =~= program_effects(event@.0, event@.1, stamp@, now, match trie {
                    Some(t) => Some(*t),
                    None => None,
                }));
            },
            FsEventKind::Retract => {
                if is_run {
                    let msg = concat3("program ", name, " stopped");
                    effects.push(LogsSubsystem::log_effect_at(stamp, msg.as_str()));
                }
                assert(effects_view(effects@) =~= program_effects(event@.0, event@.1, stamp@, now, match trie {
                    Some(t) => Some(*t),
                    None => None,
                }));
            },
            FsEventKind::Transform => {
                assert(effects_view(effects@) =~= Seq::<EffectView>::empty());
            },
        }
        effects
    }
}

impl Subsystem for ProgramsSubsystem {
    open spec fn spec_scope(&self) -> Scope {
        Scope::Programs
    }

    /// Its answers: what `handle_at` gives at some moment, with the trie
    /// when the subsystem runs programs.
    open spec fn answers(&self, event: (FsEventKind, Seq<Seq<char>>, Scope), trie: Trie, effects: Seq<EffectView>) -> bool {
        exists|stamp: Seq<char>, now: u64| effects == #[trigger] program_effects(event.0, event.1, stamp, now, trie_when(self.runs_programs(), trie))
    }

    fn scope(&self) -> (s: Scope) {
        Scope::Programs
    }

    /// The effects of `handle_at`, stamped with the current time, on the
    /// given trie when the subsystem has one.
    fn handle(&self, event: &FsEvent, trie: &Trie) -> (r: Vec<Effect>) {
        let stamp = crate::clock::utc_stamp();
        let now = crate::clock::now_nanos();
        let t = if self.trie.is_some() { Some(trie) } else { None };
        let r = Self::handle_at(event, stamp.as_str(), now, t);
        assert(effects_view(r@) == program_effects(event@.0, event@.1, stamp@, now, trie_when(self.runs_programs(), *trie)));
        r
    }
}

} // verus!
