//! The `events/` scope: fire-and-forget signals `!name`. An emitted signal
//! is recorded in `events/-history/` and each identity subscribed to it gets
//! a notification below its subscription.
use std::sync::{Arc, RwLock};
use vstd::prelude::*;
use crate::dispatcher::Scope;
use crate::effector::{Effect, EffectView, effects_view};
use crate::strings::{concat4, concat6, strings_view};
use crate::subsystems::{trie_when, any_segment_is, FsEvent, FsEventKind, Subsystem};
use crate::trie::{find_child, lookup, Trie, TrieNode};

verus! {

/// The path `subscriptions`.
pub open spec fn subscriptions_path() -> Seq<Seq<char>> {
    seq!["subscriptions"@]
}

/// The notifications of the subscribers among the identity nodes `cs`: each
/// identity with `events/{signal}` below it gets
/// `subscriptions/{id}/events/{signal}/-fired/{stamp}`, in order.
pub open spec fn notifications_of(cs: Seq<TrieNode>, signal: Seq<char>, stamp: Seq<char>) -> Seq<EffectView>
    decreases cs.len(),
{
    if cs.len() == 0 {
        Seq::empty()
    } else {
        let c = cs.last();
        notifications_of(cs.drop_last(), signal, stamp) + if lookup(c, seq!["events"@, signal]) is Some {
            seq![EffectView::Touch("subscriptions/"@ + c.segment@ + "/events/"@ + signal + "/-fired/"@ + stamp)]
        } else {
            Seq::empty()
        }
    }
}

/// The notifications for `signal` that the trie's subscriptions call for.
pub open spec fn notifications(root: TrieNode, signal: Seq<char>, stamp: Seq<char>) -> Seq<EffectView> {
    match lookup(root, subscriptions_path()) {
        Some(n) => notifications_of(n.children@, signal, stamp),
        None => Seq::empty(),
    }
}

/// The effects of an event in `events/`: emitting the signal `segs.last()`
/// records `events/-history/{stamp}_{signal}`, then notifies the subscribers
/// when a trie is at hand; anything below `-history` and anything else
/// causes nothing.
pub open spec fn event_effects(kind: FsEventKind, segs: Seq<Seq<char>>, stamp: Seq<char>, trie: Option<Trie>) -> Seq<EffectView> {
    if segs.len() < 2 || segs.contains("-history"@) || kind != FsEventKind::Assert {
        Seq::empty()
    } else {
        let signal = segs.last();
        seq![EffectView::Touch("events/-history/"@ + stamp + "_"@ + signal)] + match trie {
            Some(t) => notifications(t.root, signal, stamp),
            None => Seq::empty(),
        }
    }
}

/// The notifications for `signal` that the subscriptions in `trie` call for.
pub fn collect_subscriber_notifications(trie: &Trie, signal_name: &str, timestamp: &str) -> (r: Vec<Effect>)
    ensures
        effects_view(r@) == notifications(trie.root, signal_name@, timestamp@),
{
    let mut effects: Vec<Effect> = Vec::new();
    let path = vec!["subscriptions"];
    assert(crate::strings::strs_view(path@) =~= subscriptions_path());
    let subs = match trie.get(path.as_slice()) {
        Some(n) => n,
        None => {
            assert(effects_view(effects@) =~= Seq::<EffectView>::empty());
            return effects;
        },
    };
    let mut i: usize = 0;
    while i < subs.children.len()
        invariant
            i <= subs.children@.len(),
            effects_view(effects@) == notifications_of(subs.children@.take(i as int), signal_name@, timestamp@),
        decreases subs.children@.len() - i,
    {
        let c = &subs.children[i];
        assert(subs.children@.take(i + 1).drop_last() == subs.children@.take(i as int));
        let ghost before = effects_view(effects@);
        let q = vec!["events", signal_name];
        assert(crate::strings::strs_view(q@) =~= seq!["events"@, signal_name@]);
        let found = crate::trie::descend(c, q.as_slice()).is_some();
        assert(found == (lookup(*c, seq!["events"@, signal_name@]) is Some));
        if found {
            effects.push(Effect::Touch {
                path: concat6("subscriptions/", c.segment.as_str(), "/events/", signal_name, "/-fired/", timestamp),
            });
        }
        assert(effects_view(effects@) =~= notifications_of(subs.children@.take(i + 1), signal_name@, timestamp@));
        i += 1;
    }
    assert(subs.children@.take(subs.children@.len() as int) == subs.children@);
    effects
}

/// Every signal raised below `events/` is first recorded in the history,
/// under the time stamp and the signal's name; whatever the trie, nothing
/// else comes before it. The history itself, removals and renames cause
/// nothing, so recording never feeds back into itself.
pub proof fn lemma_signals_are_recorded_first(segs: Seq<Seq<char>>, stamp: Seq<char>, t: Option<Trie>, kind: FsEventKind)
    ensures
        segs.len() >= 2 && !segs.contains("-history"@) ==> event_effects(FsEventKind::Assert, segs, stamp, t).len() >= 1
            && event_effects(FsEventKind::Assert, segs, stamp, t)[0] == EffectView::Touch(
                "events/-history/"@ + stamp + "_"@ + segs[segs.len() - 1],
            ),
        segs.contains("-history"@) || kind != FsEventKind::Assert ==> event_effects(kind, segs, stamp, t).len() == 0,
{
}

/// The subsystem of the `events/` scope, with the shared trie when
/// subscribers are to be notified.
pub struct EventsSubsystem {
    trie: Option<Arc<RwLock<Trie>>>,
}

impl EventsSubsystem {
    /// Without a trie: signals are recorded, nobody is notified.
    pub fn new() -> (s: EventsSubsystem)
        ensures
            !s.notifies(),
    {
        EventsSubsystem { trie: None }
    }

    /// With the shared trie: subscribers are notified.
    pub fn new_with_trie(trie: Arc<RwLock<Trie>>) -> (s: EventsSubsystem)
        ensures
            s.notifies(),
    {
        EventsSubsystem { trie: Some(trie) }
    }

    /// Whether the subsystem notifies subscribers.
    pub closed spec fn notifies(&self) -> bool {
        self.trie is Some
    }

    /// The effects of an event with history stamped `stamp`, the subscribers
    /// read from `trie` when one is given.
    pub fn handle_at(event: &FsEvent, stamp: &str, trie: Option<&Trie>) -> (r: Vec<Effect>)
        ensures
            effects_view(r@) == event_effects(event@.0, event@.1, stamp@, match trie {
                Some(t) => Some(*t),
                None => None,
            }),
    {
        let mut effects: Vec<Effect> = Vec::new();
        if event.segments.len() < 2 || any_segment_is(&event.segments, "-history") || event.kind != FsEventKind::Assert {
            assert(effects_view(effects@) =~= Seq::<EffectView>::empty());
            return effects;
        }
        let signal = event.segments[event.segments.len() - 1].as_str();
        assert(signal@ == event@.1.last());
        effects.push(Effect::Touch { path: concat4("events/-history/", stamp, "_", signal) });
        let ghost first = effects_view(effects@);
        match trie {
            Some(t) => {
                let mut more = collect_subscriber_notifications(t, signal, stamp);
                let ghost m = effects_view(more@);
                effects.append(&mut more);
                assert(effects_view(effects@) =~= first + m);
            },
            None => {
                assert(effects_view(effects@) =~= first + Seq::<EffectView>::empty());
            },
        }
        effects
    }
}

impl Subsystem for EventsSubsystem {
    open spec fn spec_scope(&self) -> Scope {
        Scope::Events
    }

    /// Its answers: what `handle_at` gives with the stamp of some moment,
    /// with the trie when the subsystem has one.
    open spec fn answers(&self, event: (FsEventKind, Seq<Seq<char>>, Scope), trie: Trie, effects: Seq<EffectView>) -> bool {
        exists|stamp: Seq<char>| effects == #[trigger] event_effects(event.0, event.1, stamp, trie_when(self.notifies(), trie))
    }

    fn scope(&self) -> (s: Scope) {
        Scope::Events
    }

    /// The effects of `handle_at`, stamped with the current time, on the
    /// given trie when the subsystem has one.
    fn handle(&self, event: &FsEvent, trie: &Trie) -> (r: Vec<Effect>) {
        let stamp = crate::clock::utc_stamp();
        let t = if self.trie.is_some() { Some(trie) } else { None };
        let r = Self::handle_at(event, stamp.as_str(), t);
        assert(effects_view(r@) == event_effects(event@.0, event@.1, stamp@, trie_when(self.notifies(), *trie)));
        r
    }
}

} // verus!
