//! The `states/` scope: the global state machine; a file `states/{n}` means
//! that state is active. Transition definitions below `-transitions` are
//! structure, not events.
use vstd::prelude::*;
use crate::trie::Trie;
use crate::dispatcher::Scope;
use crate::effector::{Effect, EffectView, effects_view};
use crate::strings::{concat3, strings_view};
use crate::subsystems::logs::{log_path, LogsSubsystem};
use crate::subsystems::{any_segment_is, FsEvent, FsEventKind, Subsystem};

verus! {

/// The effects of an event in `states/`: activating the state `segs[1]`
/// logs and touches `events/!state_{name}_active`, deactivating it logs and
/// removes that signal; paths through `-transitions` cause nothing.
pub open spec fn state_effects(kind: FsEventKind, segs: Seq<Seq<char>>, stamp: Seq<char>) -> Seq<EffectView> {
    if segs.len() < 2 || segs.contains("-transitions"@) {
        Seq::empty()
    } else {
        let name = segs[1];
        match kind {
            FsEventKind::Assert => seq![
                EffectView::Touch(log_path(stamp, "state "@ + name + " activated"@)),
                EffectView::Touch("events/!state_"@ + name + "_active"@),
            ],
            FsEventKind::Retract => seq![
                EffectView::Touch(log_path(stamp, "state "@ + name + " deactivated"@)),
                EffectView::Remove("events/!state_"@ + name + "_active"@),
            ],
            FsEventKind::Transform => Seq::empty(),
        }
    }
}

/// A state going inactive takes back the signal it raised when activated:
/// the retraction of `states/{name}/…` removes the signal below `events/`
/// that the assertion of the same path touches; both are logged.
pub proof fn lemma_deactivation_takes_back_the_signal(segs: Seq<Seq<char>>, s1: Seq<char>, s2: Seq<char>)
    requires
        segs.len() >= 2,
        !segs.contains("-transitions"@),
    ensures
        exists|p: Seq<char>|
            #[trigger] state_effects(FsEventKind::Retract, segs, s1).contains(EffectView::Remove(p))
                && state_effects(FsEventKind::Assert, segs, s2).contains(EffectView::Touch(p))
                && crate::strings::is_prefix("events/!"@, p),
        state_effects(FsEventKind::Transform, segs, s1).len() == 0,
{
    let p = "events/!state_"@ + segs[1] + "_active"@;
    reveal_strlit("events/!state_");
    reveal_strlit("events/!");
    assert(p.subrange(0, "events/!"@.len() as int) =~= "events/!"@);
    assert(state_effects(FsEventKind::Retract, segs, s1)[1] == EffectView::Remove(p));
    assert(state_effects(FsEventKind::Assert, segs, s2)[1] == EffectView::Touch(p));
    assert(state_effects(FsEventKind::Retract, segs, s1).contains(EffectView::Remove(p)));
    assert(state_effects(FsEventKind::Assert, segs, s2).contains(EffectView::Touch(p)));
}

/// The subsystem of the `states/` scope.
pub struct StatesSubsystem;

impl StatesSubsystem {
    pub fn new() -> (s: StatesSubsystem) {
        StatesSubsystem
    }

    /// The effects of an event, with log entries stamped `stamp`.
    pub fn handle_at(&self, event: &FsEvent, stamp: &str) -> (r: Vec<Effect>)
        ensures
            effects_view(r@) == state_effects(event@.0, event@.1, stamp@),
    {
        let mut effects: Vec<Effect> = Vec::new();
        if event.segments.len() < 2 || any_segment_is(&event.segments, "-transitions") {
            assert(effects_view(effects@) =~= Seq::<EffectView>::empty());
            return effects;
        }
        let name = event.segments[1].as_str();
        match event.kind {
            FsEventKind::Assert => {
                let msg = concat3("state ", name, " activated");
                effects.push(LogsSubsystem::log_effect_at(stamp, msg.as_str()));
                effects.push(Effect::Touch { path: concat3("events/!state_", name, "_active") });
            },
            FsEventKind::Retract => {
                let msg = concat3("state ", name, " deactivated");
                effects.push(LogsSubsystem::log_effect_at(stamp, msg.as_str()));
                effects.push(Effect::Remove { path: concat3("events/!state_", name, "_active") });
            },
            FsEventKind::Transform => {},
        }
        assert(effects_view(effects@) =~= state_effects(event@.0, event@.1, stamp@));
        effects
    }
}

impl Subsystem for StatesSubsystem {
    open spec fn spec_scope(&self) -> Scope {
        Scope::States
    }

    /// Its answers: what `handle_at` gives with the stamp of some moment.
    open spec fn answers(&self, event: (FsEventKind, Seq<Seq<char>>, Scope), trie: Trie, effects: Seq<EffectView>) -> bool {
        exists|stamp: Seq<char>| effects == #[trigger] state_effects(event.0, event.1, stamp)
    }

    fn scope(&self) -> (s: Scope) {
        Scope::States
    }

    /// The effects of `handle_at`, stamped with the current time.
    fn handle(&self, event: &FsEvent, trie: &Trie) -> (r: Vec<Effect>) {
        let stamp = crate::clock::utc_stamp();
        let r = self.handle_at(event, stamp.as_str());
        assert(effects_view(r@) == state_effects(event@.0, event@.1, stamp@));
        r
    }
}

} // verus!
