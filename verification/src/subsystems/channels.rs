//! The `channels/` scope: ordered message queues, `channels/#name/~{seq}/(message)`.
//! Posting or consuming a message emits an event that others can react to.
use vstd::prelude::*;
use crate::trie::Trie;
use crate::dispatcher::Scope;
use crate::effector::{Effect, EffectView, effects_view};
use crate::strings::{concat4, concat5, trim_leading, trim_leading_char};
use crate::subsystems::logs::{log_path, LogsSubsystem};
use crate::subsystems::{FsEvent, FsEventKind, Subsystem};

verus! {

/// The effects of an event in `channels/`: for a message `segs[2]` of the
/// channel `segs[1]`, a posting logs and touches
/// `events/!channel_{name}_{seq}` and a consumption logs and touches
/// `events/!channel_{name}_{seq}_consumed`, where `{name}` is the channel
/// without its leading `#`s; shorter paths and renames cause nothing.
pub open spec fn channel_effects(kind: FsEventKind, segs: Seq<Seq<char>>, stamp: Seq<char>) -> Seq<EffectView> {
    if segs.len() < 3 {
        Seq::empty()
    } else {
        let name = segs[1];
        let n = segs[2];
        let safe = trim_leading(name, '#');
        match kind {
            FsEventKind::Assert => seq![
                EffectView::Touch(log_path(stamp, "channel "@ + name + " message "@ + n + " posted"@)),
                EffectView::Touch("events/!channel_"@ + safe + "_"@ + n),
            ],
            FsEventKind::Retract => seq![
                EffectView::Touch(log_path(stamp, "channel "@ + name + " message "@ + n + " consumed"@)),
                EffectView::Touch("events/!channel_"@ + safe + "_"@ + n + "_consumed"@),
            ],
            FsEventKind::Transform => Seq::empty(),
        }
    }
}

/// Consuming a message raises the posting signal of the same message with
/// `_consumed` after it; both are logged, and renames cause nothing.
pub proof fn lemma_consumption_signal_follows_posting(segs: Seq<Seq<char>>, s1: Seq<char>, s2: Seq<char>)
    requires
        segs.len() >= 3,
    ensures
        channel_effects(FsEventKind::Assert, segs, s1).len() == 2,
        channel_effects(FsEventKind::Retract, segs, s2).len() == 2,
        channel_effects(FsEventKind::Assert, segs, s1)[1] matches EffectView::Touch(posted)
            && channel_effects(FsEventKind::Retract, segs, s2)[1] == EffectView::Touch(posted + "_consumed"@),
        channel_effects(FsEventKind::Transform, segs, s1).len() == 0,
{
}

/// The subsystem of the `channels/` scope.
pub struct ChannelsSubsystem;

impl ChannelsSubsystem {
    pub fn new() -> (s: ChannelsSubsystem) {
        ChannelsSubsystem
    }

    /// The effects of an event, with log entries stamped `stamp`.
    pub fn handle_at(&self, event: &FsEvent, stamp: &str) -> (r: Vec<Effect>)
        ensures
            effects_view(r@) == channel_effects(event@.0, event@.1, stamp@),
    {
        let mut effects: Vec<Effect> = Vec::new();
        if event.segments.len() < 3 {
            assert(effects_view(effects@) =~= Seq::<EffectView>::empty());
            return effects;
        }
        let name = event.segments[1].as_str();
        let n = event.segments[2].as_str();
        let safe = trim_leading_char(name, '#');
        match event.kind {
            FsEventKind::Assert => {
                let msg = concat5("channel ", name, " message ", n, " posted");
                effects.push(LogsSubsystem::log_effect_at(stamp, msg.as_str()));
                effects.push(Effect::Touch { path: concat4("events/!channel_", safe.as_str(), "_", n) });
            },
            FsEventKind::Retract => {
                let msg = concat5("channel ", name, " message ", n, " consumed");
                effects.push(LogsSubsystem::log_effect_at(stamp, msg.as_str()));
                effects.push(Effect::Touch { path: concat5("events/!channel_", safe.as_str(), "_", n, "_consumed") });
            },
            FsEventKind::Transform => {},
        }
        assert(effects_view(effects@) =~= channel_effects(event@.0, event@.1, stamp@));
        effects
    }
}

impl Subsystem for ChannelsSubsystem {
    open spec fn spec_scope(&self) -> Scope {
        Scope::Channels
    }

    /// Its answers: what `handle_at` gives with the stamp of some moment.
    open spec fn answers(&self, event: (FsEventKind, Seq<Seq<char>>, Scope), trie: Trie, effects: Seq<EffectView>) -> bool {
        exists|stamp: Seq<char>| effects == #[trigger] channel_effects(event.0, event.1, stamp)
    }

    fn scope(&self) -> (s: Scope) {
        Scope::Channels
    }

    /// The effects of `handle_at`, stamped with the current time.
    fn handle(&self, event: &FsEvent, trie: &Trie) -> (r: Vec<Effect>) {
        let stamp = crate::clock::utc_stamp();
        let r = self.handle_at(event, stamp.as_str());
        assert(effects_view(r@) == channel_effects(event@.0, event@.1, stamp@));
        r
    }
}

} // verus!
