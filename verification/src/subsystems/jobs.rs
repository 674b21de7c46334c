//! The `jobs/` scope. A job `jobs/{id}/` goes pending → running → completed
//! or failed; its state is the one file under `-state/`, its signals are
//! `!started`, `!completed`, `!failed`.
use vstd::prelude::*;
use crate::trie::Trie;
use crate::dispatcher::Scope;
use crate::effector::{Effect, EffectView, effects_view};
use crate::strings::{concat, concat3, concat4, drop_first_char, starts_with_char, str_eq, strings_view};
use crate::subsystems::logs::{log_path, LogsSubsystem};
use crate::subsystems::{segment_is, seg_is, FsEvent, FsEventKind, Subsystem};

verus! {

/// The log entries and signals of a job event on the path `segs` (job
/// `segs[1]`): entering the state `segs[3]` below `-state` logs and signals
/// `events/!job_{id}_{state}`; a signal `!{s}` logs and signals
/// `events/!job_{id}_{s}`; the declaration `-expected/type/job` logs the new
/// job; leaving a state removes its signal. The anchor job `0` itself causes
/// nothing.
pub open spec fn job_effects(kind: FsEventKind, segs: Seq<Seq<char>>, stamp: Seq<char>) -> Seq<EffectView> {
    if segs.len() < 2 || (segs[1] == "0"@ && segs.len() <= 2) {
        Seq::empty()
    } else {
        let id = segs[1];
        match kind {
            FsEventKind::Assert => {
                let state_part = if segs.len() >= 4 && segs[2] == "-state"@ {
                    seq![
                        EffectView::Touch(log_path(stamp, "job "@ + id + " state "@ + segs[3])),
                        EffectView::Touch("events/!job_"@ + id + "_"@ + segs[3]),
                    ]
                } else {
                    Seq::empty()
                };
                let signal_part = if segs.len() >= 3 && segs.last().len() > 0 && segs.last()[0] == '!' {
                    let signal = segs.last().drop_first();
                    seq![
                        EffectView::Touch(log_path(stamp, "job "@ + id + " "@ + signal)),
                        EffectView::Touch("events/!job_"@ + id + "_"@ + signal),
                    ]
                } else {
                    Seq::empty()
                };
                let created_part = if segs.len() == 5 && segs[2] == "-expected"@ && segs[3] == "type"@ && segs[4] == "job"@ {
                    seq![EffectView::Touch(log_path(stamp, "job "@ + id + " created"@))]
                } else {
                    Seq::empty()
                };
                state_part + signal_part + created_part
            },
            FsEventKind::Retract => if segs.len() >= 4 && segs[2] == "-state"@ {
                seq![EffectView::Remove("events/!job_"@ + id + "_"@ + segs[3])]
            } else {
                Seq::empty()
            },
            FsEventKind::Transform => Seq::empty(),
        }
    }
}

/// A job leaving a state takes back exactly the signal it raised on entering
/// it: the retraction of `jobs/{id}/-state/{st}` is a single removal of a
/// signal below `events/` that the assertion of the same path touches.
/// Renames cause nothing.
pub proof fn lemma_leaving_a_state_takes_back_its_signal(segs: Seq<Seq<char>>, s1: Seq<char>, s2: Seq<char>)
    requires
        segs.len() >= 4,
        segs[2] == "-state"@,
    ensures
        job_effects(FsEventKind::Retract, segs, s1).len() == 1,
        exists|p: Seq<char>|
            job_effects(FsEventKind::Retract, segs, s1)[0] == EffectView::Remove(p) && crate::strings::is_prefix("events/!"@, p)
                && #[trigger] job_effects(FsEventKind::Assert, segs, s2).contains(EffectView::Touch(p)),
        job_effects(FsEventKind::Transform, segs, s1).len() == 0,
{
    let id = segs[1];
    let p = "events/!job_"@ + id + "_"@ + segs[3];
    reveal_strlit("events/!job_");
    reveal_strlit("events/!");
    assert(p.subrange(0, "events/!"@.len() as int) =~= "events/!"@);
    let a = job_effects(FsEventKind::Assert, segs, s2);
    assert(a[1] == EffectView::Touch(p));
    assert(a.contains(EffectView::Touch(p)));
    assert(job_effects(FsEventKind::Retract, segs, s1)[0] == EffectView::Remove(p));
    assert(job_effects(FsEventKind::Retract, segs, s1)[0] == EffectView::Remove(p) && crate::strings::is_prefix("events/!"@, p)
        && job_effects(FsEventKind::Assert, segs, s2).contains(EffectView::Touch(p)));
}

/// The subsystem of the `jobs/` scope.
pub struct JobsSubsystem;

impl JobsSubsystem {
    pub fn new() -> (s: JobsSubsystem) {
        JobsSubsystem
    }

    /// The job an event is about: the second segment, if there is one.
    pub fn job_id(event: &FsEvent) -> (r: Option<&str>)
        ensures
            match r {
                Some(id) => event@.1.len() >= 2 && id@ == event@.1[1],
                None => event@.1.len() < 2,
            },
    {
        if event.segments.len() >= 2 {
            Some(event.segments[1].as_str())
        } else {
            None
        }
    }

    /// The effects of an event, with log entries stamped `stamp`.
    pub fn handle_at(&self, event: &FsEvent, stamp: &str) -> (r: Vec<Effect>)
        ensures
            effects_view(r@) == job_effects(event@.0, event@.1, stamp@),
    {
        let ghost segs = event@.1;
        let mut effects: Vec<Effect> = Vec::new();
        let id = match Self::job_id(event) {
            Some(id) => id,
            None => {
                assert(effects_view(effects@) =~= Seq::<EffectView>::empty());
                return effects;
            },
        };
        if str_eq(id, "0") && event.segments.len() <= 2 {
            assert(effects_view(effects@) =~= Seq::<EffectView>::empty());
            return effects;
        }
        match event.kind {
            FsEventKind::Assert => {
                if event.segments.len() >= 4 && segment_is(&event.segments, 2, "-state") {
                    let state = event.segments[3].as_str();
                    let msg = concat4("job ", id, " state ", state);
                    effects.push(LogsSubsystem::log_effect_at(stamp, msg.as_str()));
                    effects.push(Effect::Touch { path: concat4("events/!job_", id, "_", state) });
                }
                let ghost after_state = effects_view(effects@);
                if event.segments.len() >= 3 {
                    let last = event.segments[event.segments.len() - 1].as_str();
                    assert(last@ == segs.last());
                    if starts_with_char(last, '!') {
                        let signal = drop_first_char(last);
                        let msg = concat4("job ", id, " ", signal.as_str());
                        effects.push(LogsSubsystem::log_effect_at(stamp, msg.as_str()));
                        effects.push(Effect::Touch { path: concat4("events/!job_", id, "_", signal.as_str()) });
                    }
                }
                let ghost after_signal = effects_view(effects@);
                if event.segments.len() == 5 && segment_is(&event.segments, 2, "-expected") && segment_is(
                    &event.segments,
                    3,
                    "type",
                ) && segment_is(&event.segments, 4, "job") {
                    let msg = concat3("job ", id, " created");
                    effects.push(LogsSubsystem::log_effect_at(stamp, msg.as_str()));
                }
                assert(effects_view(effects@) =~= job_effects(event@.0, event@.1, stamp@));
            },
            FsEventKind::Retract => {
                if event.segments.len() >= 4 && segment_is(&event.segments, 2, "-state") {
                    let state = event.segments[3].as_str();
                    effects.push(Effect::Remove { path: concat4("events/!job_", id, "_", state) });
                }
                assert(effects_view(effects@) =~= job_effects(event@.0, event@.1, stamp@));
            },
            FsEventKind::Transform => {
                assert(effects_view(effects@) =~= job_effects(event@.0, event@.1, stamp@));
            },
        }
        effects
    }
}

impl Subsystem for JobsSubsystem {
    open spec fn spec_scope(&self) -> Scope {
        Scope::Jobs
    }

    /// Its answers: what `handle_at` gives with the stamp of some moment.
    open spec fn answers(&self, event: (FsEventKind, Seq<Seq<char>>, Scope), trie: Trie, effects: Seq<EffectView>) -> bool {
        exists|stamp: Seq<char>| effects == #[trigger] job_effects(event.0, event.1, stamp)
    }

    fn scope(&self) -> (s: Scope) {
        Scope::Jobs
    }

    /// The effects of `handle_at`, stamped with the current time.
    fn handle(&self, event: &FsEvent, trie: &Trie) -> (r: Vec<Effect>) {
        let stamp = crate::clock::utc_stamp();
        let r = self.handle_at(event, stamp.as_str());
        assert(effects_view(r@) == job_effects(event@.0, event@.1, stamp@));
        r
    }
}

} // verus!
