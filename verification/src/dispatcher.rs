//! Routing of filesystem events: each event is classified by the scope its
//! path starts with, and the in-memory trie is kept in step with the disk.
use std::sync::{Arc, RwLock};
use vstd::prelude::*;
use crate::alphabet::Alphabet;
use crate::parser::{components, path_components};
use crate::strings::{str_eq, strings_view, strs_view};
use crate::subsystems::{FsEvent, FsEventKind};
use crate::trie::{inserted, lookup, removed, Trie};
use crate::watcher::WatchEvent;

verus! {

/// The top-level scopes of the filesystem.
#[derive(Debug, Clone, Copy, PartialEq, Eq, Structural, Hash)]
pub enum Scope {
    Hard,
    States,
    Jobs,
    Workers,
    Channels,
    Events,
    Programs,
    Databases,
    Pointers,
    Schedules,
    Sessions,
    Subscriptions,
    Logs,
    Tmp,
}

/// The directory name of a scope.
pub open spec fn scope_name(s: Scope) -> Seq<char> {
    match s {
        Scope::Hard => "hard"@,
        Scope::States => "states"@,
        Scope::Jobs => "jobs"@,
        Scope::Workers => "workers"@,
        Scope::Channels => "channels"@,
        Scope::Events => "events"@,
        Scope::Programs => "programs"@,
        Scope::Databases => "databases"@,
        Scope::Pointers => "pointers"@,
        Scope::Schedules => "schedules"@,
        Scope::Sessions => "sessions"@,
        Scope::Subscriptions => "subscriptions"@,
        Scope::Logs => "logs"@,
        Scope::Tmp => "tmp"@,
    }
}

/// The scope whose directory is named `seg`, if any.
pub open spec fn scope_of(seg: Seq<char>) -> Option<Scope> {
    if seg == "hard"@ { Some(Scope::Hard) }
    else if seg == "states"@ { Some(Scope::States) }
    else if seg == "jobs"@ { Some(Scope::Jobs) }
    else if seg == "workers"@ { Some(Scope::Workers) }
    else if seg == "channels"@ { Some(Scope::Channels) }
    else if seg == "events"@ { Some(Scope::Events) }
    else if seg == "programs"@ { Some(Scope::Programs) }
    else if seg == "databases"@ { Some(Scope::Databases) }
    else if seg == "pointers"@ { Some(Scope::Pointers) }
    else if seg == "schedules"@ { Some(Scope::Schedules) }
    else if seg == "sessions"@ { Some(Scope::Sessions) }
    else if seg == "subscriptions"@ { Some(Scope::Subscriptions) }
    else if seg == "logs"@ { Some(Scope::Logs) }
    else if seg == "tmp"@ { Some(Scope::Tmp) }
    else { None }
}

impl Scope {
    /// The scope named by the first segment of a relative path.
    pub fn from_segment(segment: &str) -> (r: Option<Scope>)
        ensures
            r == scope_of(segment@),
    {
        if str_eq(segment, "hard") { Some(Scope::Hard) }
        else if str_eq(segment, "states") { Some(Scope::States) }
        else if str_eq(segment, "jobs") { Some(Scope::Jobs) }
        else if str_eq(segment, "workers") { Some(Scope::Workers) }
        else if str_eq(segment, "channels") { Some(Scope::Channels) }
        else if str_eq(segment, "events") { Some(Scope::Events) }
        else if str_eq(segment, "programs") { Some(Scope::Programs) }
        else if str_eq(segment, "databases") { Some(Scope::Databases) }
        else if str_eq(segment, "pointers") { Some(Scope::Pointers) }
        else if str_eq(segment, "schedules") { Some(Scope::Schedules) }
        else if str_eq(segment, "sessions") { Some(Scope::Sessions) }
        else if str_eq(segment, "subscriptions") { Some(Scope::Subscriptions) }
        else if str_eq(segment, "logs") { Some(Scope::Logs) }
        else if str_eq(segment, "tmp") { Some(Scope::Tmp) }
        else { None }
    }

    /// The directory name of the scope.
    pub fn name(&self) -> (r: &'static str)
        ensures
            r@ == scope_name(*self),
    {
        match self {
            Scope::Hard => "hard",
            Scope::States => "states",
            Scope::Jobs => "jobs",
            Scope::Workers => "workers",
            Scope::Channels => "channels",
            Scope::Events => "events",
            Scope::Programs => "programs",
            Scope::Databases => "databases",
            Scope::Pointers => "pointers",
            Scope::Schedules => "schedules",
            Scope::Sessions => "sessions",
            Scope::Subscriptions => "subscriptions",
            Scope::Logs => "logs",
            Scope::Tmp => "tmp",
        }
    }
}

/// A scope's directory name leads back to the scope.
pub proof fn lemma_scope_name_roundtrip(s: Scope)
    ensures
        scope_of(scope_name(s)) == Some(s),
{
    match s {
        Scope::Hard => {
            reveal_strlit("hard");
        },
        Scope::States => {
            reveal_strlit("states");
            reveal_strlit("hard");
            assert("states"@.len() != "hard"@.len());
        },
        Scope::Jobs => {
            reveal_strlit("jobs");
            reveal_strlit("hard");
            assert("jobs"@[0] != "hard"@[0]);
            reveal_strlit("states");
            assert("jobs"@.len() != "states"@.len());
        },
        Scope::Workers => {
            reveal_strlit("workers");
            reveal_strlit("hard");
            assert("workers"@.len() != "hard"@.len());
            reveal_strlit("states");
            assert("workers"@.len() != "states"@.len());
            reveal_strlit("jobs");
            assert("workers"@.len() != "jobs"@.len());
        },
        Scope::Channels => {
            reveal_strlit("channels");
            reveal_strlit("hard");
            assert("channels"@.len() != "hard"@.len());
            reveal_strlit("states");
            assert("channels"@.len() != "states"@.len());
            reveal_strlit("jobs");
            assert("channels"@.len() != "jobs"@.len());
            reveal_strlit("workers");
            assert("channels"@.len() != "workers"@.len());
        },
        Scope::Events => {
            reveal_strlit("events");
            reveal_strlit("hard");
            assert("events"@.len() != "hard"@.len());
            reveal_strlit("states");
            assert("events"@[0] != "states"@[0]);
            reveal_strlit("jobs");
            assert("events"@.len() != "jobs"@.len());
            reveal_strlit("workers");
            assert("events"@.len() != "workers"@.len());
            reveal_strlit("channels");
            assert("events"@.len() != "channels"@.len());
        },
        Scope::Programs => {
            reveal_strlit("programs");
            reveal_strlit("hard");
            assert("programs"@.len() != "hard"@.len());
            reveal_strlit("states");
            assert("programs"@.len() != "states"@.len());
            reveal_strlit("jobs");
            assert("programs"@.len() != "jobs"@.len());
            reveal_strlit("workers");
            assert("programs"@.len() != "workers"@.len());
            reveal_strlit("channels");
            assert("programs"@[0] != "channels"@[0]);
            reveal_strlit("events");
            assert("programs"@.len() != "events"@.len());
        },
        Scope::Databases => {
            reveal_strlit("databases");
            reveal_strlit("hard");
            assert("databases"@.len() != "hard"@.len());
            reveal_strlit("states");
            assert("databases"@.len() != "states"@.len());
            reveal_strlit("jobs");
            assert("databases"@.len() != "jobs"@.len());
            reveal_strlit("workers");
            assert("databases"@.len() != "workers"@.len());
            reveal_strlit("channels");
            assert("databases"@.len() != "channels"@.len());
            reveal_strlit("events");
            assert("databases"@.len() != "events"@.len());
            reveal_strlit("programs");
            assert("databases"@.len() != "programs"@.len());
        },
        Scope::Pointers => {
            reveal_strlit("pointers");
            reveal_strlit("hard");
            assert("pointers"@.len() != "hard"@.len());
            reveal_strlit("states");
            assert("pointers"@.len() != "states"@.len());
            reveal_strlit("jobs");
            assert("pointers"@.len() != "jobs"@.len());
            reveal_strlit("workers");
            assert("pointers"@.len() != "workers"@.len());
            reveal_strlit("channels");
            assert("pointers"@[0] != "channels"@[0]);
            reveal_strlit("events");
            assert("pointers"@.len() != "events"@.len());
            reveal_strlit("programs");
            assert("pointers"@[1] != "programs"@[1]);
            reveal_strlit("databases");
            assert("pointers"@.len() != "databases"@.len());
        },
        Scope::Schedules => {
            reveal_strlit("schedules");
            reveal_strlit("hard");
            assert("schedules"@.len() != "hard"@.len());
            reveal_strlit("states");
            assert("schedules"@.len() != "states"@.len());
            reveal_strlit("jobs");
            assert("schedules"@.len() != "jobs"@.len());
            reveal_strlit("workers");
            assert("schedules"@.len() != "workers"@.len());
            reveal_strlit("channels");
            assert("schedules"@.len() != "channels"@.len());
            reveal_strlit("events");
            assert("schedules"@.len() != "events"@.len());
            reveal_strlit("programs");
            assert("schedules"@.len() != "programs"@.len());
            reveal_strlit("databases");
            assert("schedules"@[0] != "databases"@[0]);
            reveal_strlit("pointers");
            assert("schedules"@.len() != "pointers"@.len());
        },
        Scope::Sessions => {
            reveal_strlit("sessions");
            reveal_strlit("hard");
            assert("sessions"@.len() != "hard"@.len());
            reveal_strlit("states");
            assert("sessions"@.len() != "states"@.len());
            reveal_strlit("jobs");
            assert("sessions"@.len() != "jobs"@.len());
            reveal_strlit("workers");
            assert("sessions"@.len() != "workers"@.len());
            reveal_strlit("channels");
            assert("sessions"@[0] != "channels"@[0]);
            reveal_strlit("events");
            assert("sessions"@.len() != "events"@.len());
            reveal_strlit("programs");
            assert("sessions"@[0] != "programs"@[0]);
            reveal_strlit("databases");
            assert("sessions"@.len() != "databases"@.len());
            reveal_strlit("pointers");
            assert("sessions"@[0] != "pointers"@[0]);
            reveal_strlit("schedules");
            assert("sessions"@.len() != "schedules"@.len());
        },
        Scope::Subscriptions => {
            reveal_strlit("subscriptions");
            reveal_strlit("hard");
            assert("subscriptions"@.len() != "hard"@.len());
            reveal_strlit("states");
            assert("subscriptions"@.len() != "states"@.len());
            reveal_strlit("jobs");
            assert("subscriptions"@.len() != "jobs"@.len());
            reveal_strlit("workers");
            assert("subscriptions"@.len() != "workers"@.len());
            reveal_strlit("channels");
            assert("subscriptions"@.len() != "channels"@.len());
            reveal_strlit("events");
            assert("subscriptions"@.len() != "events"@.len());
            reveal_strlit("programs");
            assert("subscriptions"@.len() != "programs"@.len());
            reveal_strlit("databases");
            assert("subscriptions"@.len() != "databases"@.len());
            reveal_strlit("pointers");
            assert("subscriptions"@.len() != "pointers"@.len());
            reveal_strlit("schedules");
            assert("subscriptions"@.len() != "schedules"@.len());
            reveal_strlit("sessions");
            assert("subscriptions"@.len() != "sessions"@.len());
        },
        Scope::Logs => {
            reveal_strlit("logs");
            reveal_strlit("hard");
            assert("logs"@[0] != "hard"@[0]);
            reveal_strlit("states");
            assert("logs"@.len() != "states"@.len());
            reveal_strlit("jobs");
            assert("logs"@[0] != "jobs"@[0]);
            reveal_strlit("workers");
            assert("logs"@.len() != "workers"@.len());
            reveal_strlit("channels");
            assert("logs"@.len() != "channels"@.len());
            reveal_strlit("events");
            assert("logs"@.len() != "events"@.len());
            reveal_strlit("programs");
            assert("logs"@.len() != "programs"@.len());
            reveal_strlit("databases");
            assert("logs"@.len() != "databases"@.len());
            reveal_strlit("pointers");
            assert("logs"@.len() != "pointers"@.len());
            reveal_strlit("schedules");
            assert("logs"@.len() != "schedules"@.len());
            reveal_strlit("sessions");
            assert("logs"@.len() != "sessions"@.len());
            reveal_strlit("subscriptions");
            assert("logs"@.len() != "subscriptions"@.len());
        },
        Scope::Tmp => {
            reveal_strlit("tmp");
            reveal_strlit("hard");
            assert("tmp"@.len() != "hard"@.len());
            reveal_strlit("states");
            assert("tmp"@.len() != "states"@.len());
            reveal_strlit("jobs");
            assert("tmp"@.len() != "jobs"@.len());
            reveal_strlit("workers");
            assert("tmp"@.len() != "workers"@.len());
            reveal_strlit("channels");
            assert("tmp"@.len() != "channels"@.len());
            reveal_strlit("events");
            assert("tmp"@.len() != "events"@.len());
            reveal_strlit("programs");
            assert("tmp"@.len() != "programs"@.len());
            reveal_strlit("databases");
            assert("tmp"@.len() != "databases"@.len());
            reveal_strlit("pointers");
            assert("tmp"@.len() != "pointers"@.len());
            reveal_strlit("schedules");
            assert("tmp"@.len() != "schedules"@.len());
            reveal_strlit("sessions");
            assert("tmp"@.len() != "sessions"@.len());
            reveal_strlit("subscriptions");
            assert("tmp"@.len() != "subscriptions"@.len());
            reveal_strlit("logs");
            assert("tmp"@.len() != "logs"@.len());
        },
    }
}

/// What one event does to the trie: a creation or a rename (re)inserts the
/// path with its kind, a removal removes the path with everything below it.
pub open spec fn trie_follows(old: Trie, new: Trie, segs: Seq<Seq<char>>, kind: FsEventKind, is_file: bool, doors: Set<char>) -> bool {
    match kind {
        FsEventKind::Retract => segs.len() > 0 ==> removed(old.root, new.root, segs),
        _ => segs.len() > 0 ==> inserted(old.root, new.root, segs, is_file, doors, None),
    }
}

/// A creation or a rename of a path leaves it in the trie, with the kind
/// (file or directory) it has on disk, and every directory above it too; a
/// removal takes it out with everything below it.
pub proof fn lemma_events_follow_the_disk(
    old: Trie,
    new: Trie,
    segs: Seq<Seq<char>>,
    kind: FsEventKind,
    is_file: bool,
    doors: Set<char>,
    below: Seq<Seq<char>>,
)
    requires
        segs.len() > 0,
        trie_follows(old, new, segs, kind, is_file, doors),
    ensures
        kind != FsEventKind::Retract ==> (lookup(new.root, segs) matches Some(n) && n.is_file == is_file),
        kind != FsEventKind::Retract && crate::strings::is_prefix(below, segs) ==> lookup(new.root, below) is Some,
        kind == FsEventKind::Retract && crate::strings::is_prefix(segs, below) ==> lookup(new.root, below) is None,
{
    if kind == FsEventKind::Retract {
        if crate::strings::is_prefix(segs, below) {
            crate::trie::lemma_remove_then_lookup(old.root, new.root, segs, below);
        }
    } else {
        assert(inserted(old.root, new.root, segs, is_file, doors, None));
        assert(segs.subrange(0, segs.len() as int) =~= segs);
        crate::trie::lemma_insert_then_lookup(old.root, new.root, segs, is_file, doors, segs);
        if crate::strings::is_prefix(below, segs) {
            crate::trie::lemma_insert_then_lookup(old.root, new.root, segs, is_file, doors, below);
        }
    }
}

/// Bring the trie in step with one event on the path `segments`.
pub fn apply_event(trie: &mut Trie, segments: &[String], kind: FsEventKind, is_file: bool, alphabet: &Alphabet)
    ensures
        trie_follows(*old(trie), *final(trie), strings_view(segments@), kind, is_file, alphabet@),
        old(trie).root.wf() ==> final(trie).root.wf(),
{
    match kind {
        FsEventKind::Retract => {
            let mut refs: Vec<&str> = Vec::new();
            let mut i: usize = 0;
            while i < segments.len()
                invariant
                    i <= segments@.len(),
                    strs_view(refs@) == strings_view(segments@.take(i as int)),
                decreases segments@.len() - i,
            {
                let ghost before = refs@;
                let r = segments[i].as_str();
                refs.push(r);
                assert(refs@ == before.push(r));
                assert(r@ == segments@[i as int]@);
                assert(strs_view(refs@) =~= strs_view(before).push(r@));
                assert(strings_view(segments@.take(i + 1)) =~= strings_view(segments@.take(i as int)).push(segments@[i as int]@));
                i += 1;
            }
            assert(segments@.take(segments@.len() as int) == segments@);
            trie.remove(refs.as_slice());
        },
        _ => {
            trie.insert(segments, is_file, alphabet);
        },
    }
}

/// Routes events and keeps the shared trie up to date.
pub struct Dispatcher {
    trie: Arc<RwLock<Trie>>,
    alphabet: Alphabet,
}

/// The event a watch event on the path with components `segs` becomes: none
/// for an empty path or an unknown scope.
pub open spec fn dispatched(kind: FsEventKind, segs: Seq<Seq<char>>) -> Option<(FsEventKind, Seq<Seq<char>>, Scope)> {
    if segs.len() == 0 {
        None
    } else {
        match scope_of(segs[0]) {
            Some(scope) => Some((kind, segs, scope)),
            None => None,
        }
    }
}

impl Dispatcher {
    pub fn new(trie: Arc<RwLock<Trie>>, alphabet: Alphabet) -> (d: Dispatcher)
        ensures
            d.alphabet_view() == alphabet@,
            d.trie_lock() == *trie,
    {
        Dispatcher { trie, alphabet }
    }

    /// The doors the dispatcher classifies with.
    pub closed spec fn alphabet_view(&self) -> Set<char> {
        self.alphabet@
    }

    /// Dispatch a watch event: classify it by scope and update `trie` (the
    /// shared trie, as its lock holder has it). `is_file` tells whether the
    /// path names a file on disk now. An event on an empty path or outside
    /// every scope is dropped (`None`) and leaves the trie alone; changes in
    /// `hard/` are let through.
    pub fn dispatch(&self, trie: &mut Trie, watch_event: &WatchEvent, is_file: bool) -> (r: Option<FsEvent>)
        ensures
            match dispatched(watch_event.kind, path_components(watch_event.relative_path@)) {
                Some(e) => r matches Some(f) && f@ == e && trie_follows(
                    *old(trie),
                    *final(trie),
                    e.1,
                    e.0,
                    is_file,
                    self.alphabet_view(),
                ),
                None => r is None && *final(trie) == *old(trie),
            },
            old(trie).root.wf() ==> final(trie).root.wf(),
    {
        let segments = components(watch_event.relative_path.as_str());
        if segments.len() == 0 {
            return None;
        }
        let scope = match Scope::from_segment(segments[0].as_str()) {
            Some(s) => s,
            None => {
                return None;
            },
        };
        apply_event(trie, segments.as_slice(), watch_event.kind, is_file, &self.alphabet);
        Some(FsEvent { kind: watch_event.kind, segments, scope })
    }

    /// The lock around the trie the dispatcher keeps up to date.
    pub closed spec fn trie_lock(&self) -> RwLock<Trie> {
        *self.trie
    }

    /// Another handle to the shared trie.
    pub fn trie(&self) -> (r: Arc<RwLock<Trie>>)
        ensures
            *r == self.trie_lock(),
    {
        crate::effector::share(&self.trie)
    }
}

} // verus!
