//! The `subscriptions/` scope: `subscriptions/{identity}/{watched path}`.
use vstd::prelude::*;
use crate::trie::Trie;
use crate::dispatcher::Scope;
use crate::effector::{Effect, EffectView, effects_view};
use crate::strings::{concat4, join_seq, join_tail};
use crate::subsystems::logs::{log_path, LogsSubsystem};
use crate::subsystems::{FsEvent, FsEventKind, Subsystem};

verus! {

/// The effects of an event in `subscriptions/`: subscribing or
/// unsubscribing the identity `segs[1]` to the path `segs[2..]` is logged.
pub open spec fn subscription_effects(kind: FsEventKind, segs: Seq<Seq<char>>, stamp: Seq<char>) -> Seq<EffectView> {
    if segs.len() < 3 {
        Seq::empty()
    } else {
        let id = segs[1];
        let watched = join_seq(segs.skip(2), "/"@);
        match kind {
            FsEventKind::Assert => seq![EffectView::Touch(log_path(stamp, "subscribe "@ + id + " → "@ + watched))],
            FsEventKind::Retract => seq![EffectView::Touch(log_path(stamp, "unsubscribe "@ + id + " → "@ + watched))],
            FsEventKind::Transform => Seq::empty(),
        }
    }
}

/// The subsystem of the `subscriptions/` scope.
pub struct SubscriptionsSubsystem;

impl SubscriptionsSubsystem {
    pub fn new() -> (s: SubscriptionsSubsystem) {
        SubscriptionsSubsystem
    }

    /// The effects of an event, with log entries stamped `stamp`.
    pub fn handle_at(&self, event: &FsEvent, stamp: &str) -> (r: Vec<Effect>)
        ensures
            effects_view(r@) == subscription_effects(event@.0, event@.1, stamp@),
    {
        let mut effects: Vec<Effect> = Vec::new();
        if event.segments.len() < 3 {
            assert(effects_view(effects@) =~= Seq::<EffectView>::empty());
            return effects;
        }
        let id = event.segments[1].as_str();
        let watched = join_tail(event.segments.as_slice(), 2, "/");
        match event.kind {
            FsEventKind::Assert => {
                let msg = concat4("subscribe ", id, " → ", watched.as_str());
                effects.push(LogsSubsystem::log_effect_at(stamp, msg.as_str()));
            },
            FsEventKind::Retract => {
                let msg = concat4("unsubscribe ", id, " → ", watched.as_str());
                effects.push(LogsSubsystem::log_effect_at(stamp, msg.as_str()));
            },
            FsEventKind::Transform => {},
        }
        assert(effects_view(effects@) =~= subscription_effects(event@.0, event@.1, stamp@));
        effects
    }
}

impl Subsystem for SubscriptionsSubsystem {
    open spec fn spec_scope(&self) -> Scope {
        Scope::Subscriptions
    }

    /// Its answers: what `handle_at` gives with the stamp of some moment.
    open spec fn answers(&self, event: (FsEventKind, Seq<Seq<char>>, Scope), trie: Trie, effects: Seq<EffectView>) -> bool {
        exists|stamp: Seq<char>| effects == #[trigger] subscription_effects(event.0, event.1, stamp)
    }

    fn scope(&self) -> (s: Scope) {
        Scope::Subscriptions
    }

    /// The effects of `handle_at`, stamped with the current time.
    fn handle(&self, event: &FsEvent, trie: &Trie) -> (r: Vec<Effect>) {
        let stamp = crate::clock::utc_stamp();
        let r = self.handle_at(event, stamp.as_str());
        assert(effects_view(r@) == subscription_effects(event@.0, event@.1, stamp@));
        r
    }
}

} // verus!
