//! Sessions: API connections bound to identities.
//!
//! A connecting peer's Unix UID is mapped to an identity through the
//! `hard/identities/{id}/-uid/{unix_uid}` entries; unmapped peers are guests
//! (identity 800). A session can be upgraded by authenticating.
use std::collections::HashMap;
use std::sync::{Arc, RwLock};
use vstd::prelude::*;
use crate::effector::{Effect, EffectView, effects_view};
use crate::error::PithError;
use crate::parser::{NodeClass, NodeClassView};
use crate::permissions::{check_spec, verb_debug, PermissionEngine, PermissionResult, Verb};
use crate::strings::{concat, decimal, join_seq, join_strs, owned, parse_unsigned, parse_unsigned_str, str_eq, u64_to_string};
use crate::trie::{lookup, Trie, TrieNode};

verus! {

broadcast use vstd::std_specs::hash::group_hash_axioms;

/// The identity of a peer whose UID is not mapped: a guest.
pub const DEFAULT_IDENTITY: u64 = 800;

/// A live session binding a connection to an identity.
#[derive(Debug, Clone, Copy, PartialEq, Eq, Structural)]
pub struct Session {
    /// Session number.
    pub id: u64,
    /// The identity the session acts as (can be upgraded by authenticating).
    pub identity_id: u64,
    /// The peer's Unix UID.
    pub unix_uid: u32,
    /// The peer's Unix PID, when known.
    pub unix_pid: Option<i32>,
    /// When the session was created, in nanoseconds since the Unix epoch.
    pub connected_at: u64,
}

/// The number that follows `n` on a 64-bit counter (wrapping at the top).
pub open spec fn next_number(n: u64) -> u64 {
    if n == u64::MAX { 0 } else { (n + 1) as u64 }
}

/// The sessions in progress and the number the next one gets.
#[derive(Debug)]
pub struct SessionTable {
    next_id: u64,
    active: HashMap<u64, Session>,
}

/// The mathematical value of a session table.
pub struct SessionTableView {
    pub next_id: u64,
    pub active: Map<u64, Session>,
}

impl View for SessionTable {
    type V = SessionTableView;

    closed spec fn view(&self) -> SessionTableView {
        SessionTableView { next_id: self.next_id, active: self.active@ }
    }
}

/// The session stored under `id`, if any.
pub open spec fn session_at(active: Map<u64, Session>, id: u64) -> Option<Session> {
    if active.contains_key(id) { Some(active[id]) } else { None }
}

impl SessionTable {
    /// Each open session is filed under its own number.
    #[verifier::type_invariant]
    spec fn keyed(self) -> bool {
        forall|k: u64| self.active@.contains_key(k) ==> (#[trigger] self.active@[k]).id == k
    }

    /// No session yet; the first one is number 1.
    pub fn new() -> (t: SessionTable)
        ensures
            t@.next_id == 1,
            t@.active == Map::<u64, Session>::empty(),
    {
        SessionTable { next_id: 1, active: HashMap::new() }
    }

    /// Open a session numbered with the counter, which then moves on.
    pub fn create(&mut self, identity_id: u64, unix_uid: u32, unix_pid: Option<i32>, connected_at: u64) -> (s: Session)
        ensures
            s == (Session { id: old(self)@.next_id, identity_id, unix_uid, unix_pid, connected_at }),
            final(self)@.next_id == next_number(old(self)@.next_id),
            final(self)@.active == old(self)@.active.insert(s.id, s),
    {
        proof {
            use_type_invariant(&*self);
        }
        let id = self.next_id;
        self.next_id = if id == u64::MAX { 0 } else { id + 1 };
        let s = Session { id, identity_id, unix_uid, unix_pid, connected_at };
        let mut active = HashMap::new();
        std::mem::swap(&mut active, &mut self.active);
        active.insert(id, s);
        self.active = active;
        s
    }

    /// Close a session; the session that was closed, if there was one.
    pub fn destroy(&mut self, id: u64) -> (r: Option<Session>)
        ensures
            r == session_at(old(self)@.active, id),
            r matches Some(s) ==> s.id == id,
            final(self)@.active == old(self)@.active.remove(id),
            final(self)@.next_id == old(self)@.next_id,
    {
        proof {
            use_type_invariant(&*self);
        }
        let mut active = HashMap::new();
        std::mem::swap(&mut active, &mut self.active);
        let r = active.remove(&id);
        self.active = active;
        r
    }

    /// The session numbered `id`, if it is open.
    pub fn get(&self, id: u64) -> (r: Option<Session>)
        ensures
            r == session_at(self@.active, id),
            r matches Some(s) ==> s.id == id,
    {
        proof {
            use_type_invariant(self);
        }
        match self.active.get(&id) {
            Some(s) => Some(*s),
            None => None,
        }
    }

    /// Switch an open session to another identity; the identity it had, or
    /// `None` (and no change) when no such session is open.
    pub fn authenticate(&mut self, id: u64, new_identity_id: u64) -> (r: Option<u64>)
        ensures
            r == match session_at(old(self)@.active, id) {
                Some(s) => Some(s.identity_id),
                None => None,
            },
            final(self)@.active == match session_at(old(self)@.active, id) {
                Some(s) => old(self)@.active.insert(id, Session { identity_id: new_identity_id, ..s }),
                None => old(self)@.active,
            },
            final(self)@.next_id == old(self)@.next_id,
    {
        proof {
            use_type_invariant(&*self);
        }
        match self.active.get(&id) {
            Some(s) => {
                let old_identity = s.identity_id;
                let updated = Session { identity_id: new_identity_id, ..*s };
                let mut active = HashMap::new();
                std::mem::swap(&mut active, &mut self.active);
                active.insert(id, updated);
                self.active = active;
                Some(old_identity)
            },
            None => None,
        }
    }

    /// The numbers of the open sessions, each once, in no particular order.
    pub fn ids(&self) -> (r: Vec<u64>)
        ensures
            r@.to_set() == self@.active.dom(),
            r@.no_duplicates(),
    {
        let mut ids: Vec<u64> = Vec::new();
        let ghost all = vstd::std_specs::iter::IteratorSpec::remaining(
            &vstd::std_specs::hash::spec_keys_iter(&self.active),
        );
        let ghost mut count: int = 0;
        for k in it: self.active.keys()
            invariant
                it.seq() == all,
                count == it.index(),
                ids@ == all.take(it.index() as int).map_values(|r: &u64| *r),
        {
            ids.push(*k);
            assert(all.take(it.index() + 1).map_values(|r: &u64| *r) =~= all.take(it.index() as int).map_values(|r: &u64| *r).push(*k));
            proof {
                count = count + 1;
            }
        }
        assert(count == all.len());
        assert(all.take(all.len() as int) == all);
        assert(ids@ =~= all.unref());
        ids
    }
}

// ---------------------------------------------------------------------------
// Laws of the session table
// ---------------------------------------------------------------------------

/// A created session can be read back as it was created.
pub proof fn lemma_create_then_get(t: SessionTableView, s: Session, t2: SessionTableView)
    requires
        s.id == t.next_id,
        t2.active == t.active.insert(s.id, s),
    ensures
        session_at(t2.active, s.id) == Some(s),
{
}

/// A destroyed session is gone, and destroying it again finds nothing.
pub proof fn lemma_destroy_then_get(t: SessionTableView, id: u64, t2: SessionTableView)
    requires
        t2.active == t.active.remove(id),
    ensures
        session_at(t2.active, id) is None,
{
}

/// After authenticating, the session acts as the new identity and keeps
/// everything else.
pub proof fn lemma_authenticate_then_get(t: SessionTableView, id: u64, new_identity: u64, t2: SessionTableView)
    requires
        session_at(t.active, id) is Some,
        t2.active == t.active.insert(id, Session { identity_id: new_identity, ..t.active[id] }),
    ensures
        session_at(t2.active, id) == Some(Session { identity_id: new_identity, ..t.active[id] }),
{
}

/// Operations on one session leave every other session as it was.
pub proof fn lemma_other_sessions_kept(active: Map<u64, Session>, id: u64, s: Session, other: u64)
    requires
        other != id,
    ensures
        session_at(active.insert(id, s), other) == session_at(active, other),
        session_at(active.remove(id), other) == session_at(active, other),
{
}

/// One step of a session table's history: `None` opens a session
/// (`create`), `Some(id)` closes the session `id` (`destroy`).
pub open spec fn step_follows(t: SessionTableView, t2: SessionTableView, step: Option<u64>) -> bool {
    match step {
        None => t2.next_id == next_number(t.next_id) && exists|s: Session|
            s.id == t.next_id && t2.active == #[trigger] t.active.insert(s.id, s),
        Some(id) => t2.next_id == t.next_id && t2.active == t.active.remove(id),
    }
}

/// How many sessions the steps open.
pub open spec fn opens(steps: Seq<Option<u64>>) -> nat
    decreases steps.len(),
{
    if steps.len() == 0 {
        0
    } else {
        opens(steps.drop_last()) + if steps.last() is None { 1nat } else { 0nat }
    }
}

/// The numbers the steps close.
pub open spec fn closed(steps: Seq<Option<u64>>) -> Set<u64>
    decreases steps.len(),
{
    if steps.len() == 0 {
        Set::empty()
    } else {
        match steps.last() {
            Some(id) => closed(steps.drop_last()).insert(id),
            None => closed(steps.drop_last()),
        }
    }
}

/// The numbers `1..=n`.
pub open spec fn numbers_up_to(n: nat) -> Set<u64> {
    Set::new(|k: u64| 1 <= k <= n)
}

/// The open sessions are those created and not destroyed: starting from a
/// new table (`next_id` 1, nothing open, as `SessionTable::new` and
/// `SessionManager::load` leave it), after a run of creates and
/// destroys that each destroy a session created before it (fewer steps than
/// the counter's range, so numbers are not reused), the open numbers are
/// `1..=` the number of creates, minus the destroyed ones.
pub proof fn lemma_open_sessions(ts: Seq<SessionTableView>, steps: Seq<Option<u64>>)
    requires
        ts.len() == steps.len() + 1,
        steps.len() < u64::MAX,
        ts[0].next_id == 1,
        ts[0].active == Map::<u64, Session>::empty(),
        forall|i: int| 0 <= i < steps.len() ==> step_follows(ts[i], ts[i + 1], #[trigger] steps[i]),
        forall|i: int| 0 <= i < steps.len() && (#[trigger] steps[i]) is Some ==>
            numbers_up_to(opens(steps.take(i))).contains(steps[i]->0),
    ensures
        ts.last().active.dom() == numbers_up_to(opens(steps)) - closed(steps),
        ts.last().next_id == opens(steps) + 1,
    decreases steps.len(),
{
    let n = steps.len() as int;
    if n == 0 {
        assert(ts.last().active.dom() =~= numbers_up_to(0) - Set::<u64>::empty());
    } else {
        let pre = steps.drop_last();
        let tpre = ts.drop_last();
        assert forall|i: int| 0 <= i < pre.len() implies step_follows(tpre[i], tpre[i + 1], #[trigger] pre[i]) by {
            assert(steps[i] == pre[i]);
        }
        assert forall|i: int| 0 <= i < pre.len() && (#[trigger] pre[i]) is Some implies
            numbers_up_to(opens(pre.take(i))).contains(pre[i]->0) by {
            assert(steps[i] == pre[i]);
            assert(steps.take(i) =~= pre.take(i));
        }
        lemma_open_sessions(tpre, pre);
        lemma_closed_within(pre);
        lemma_opens_bound(pre);
        assert(tpre.last() == ts[n - 1]);
        assert(pre =~= steps.take(n - 1));
        let t = ts[n - 1];
        let t2 = ts[n];
        assert(step_follows(t, t2, steps[n - 1]));
        assert(steps.last() == steps[n - 1]);
        match steps[n - 1] {
            None => {
                let s = choose|s: Session| s.id == t.next_id && t2.active == #[trigger] t.active.insert(s.id, s);
                assert(t2.active.dom() =~= numbers_up_to(opens(steps)) - closed(steps));
            },
            Some(id) => {
                assert(t2.active.dom() =~= numbers_up_to(opens(steps)) - closed(steps));
            },
        }
    }
}

/// A run of steps opens at most one session per step.
proof fn lemma_opens_bound(steps: Seq<Option<u64>>)
    ensures
        opens(steps) <= steps.len(),
    decreases steps.len(),
{
    if steps.len() > 0 {
        lemma_opens_bound(steps.drop_last());
    }
}

/// Every number a run of steps closes lies within the numbers it had
/// opened by then, when each step closes a number opened before it.
proof fn lemma_closed_within(steps: Seq<Option<u64>>)
    requires
        forall|i: int| 0 <= i < steps.len() && (#[trigger] steps[i]) is Some ==>
            numbers_up_to(opens(steps.take(i))).contains(steps[i]->0),
    ensures
        closed(steps).subset_of(numbers_up_to(opens(steps))),
    decreases steps.len(),
{
    if steps.len() > 0 {
        let n = steps.len() as int;
        let pre = steps.drop_last();
        assert forall|i: int| 0 <= i < pre.len() && (#[trigger] pre[i]) is Some implies
            numbers_up_to(opens(pre.take(i))).contains(pre[i]->0) by {
            assert(steps[i] == pre[i]);
            assert(steps.take(i) =~= pre.take(i));
        }
        lemma_closed_within(pre);
        assert(pre =~= steps.take(n - 1));
        assert(steps.last() == steps[n - 1]);
    }
}

// ---------------------------------------------------------------------------
// UID mapping
// ---------------------------------------------------------------------------

/// Whether a node is a `-uid` instruction node.
pub open spec fn is_uid_door(c: TrieNode) -> bool {
    c.class@ matches NodeClassView::Instruction { door, arg } && door == '-' && arg == "uid"@
}

/// `m` with every UID named by the nodes `gs` mapped to `id` (names that are
/// not a UID are skipped).
pub open spec fn map_uids(m: Map<u32, u64>, gs: Seq<TrieNode>, id: u64) -> Map<u32, u64>
    decreases gs.len(),
{
    if gs.len() == 0 {
        m
    } else {
        let prev = map_uids(m, gs.drop_last(), id);
        match parse_unsigned(gs.last().segment@, u32::MAX as nat) {
            Some(u) => prev.insert(u as u32, id),
            None => prev,
        }
    }
}

/// `m` with the UIDs listed under the `-uid` nodes among `ds` mapped to `id`.
pub open spec fn map_identity_uids(m: Map<u32, u64>, ds: Seq<TrieNode>, id: u64) -> Map<u32, u64>
    decreases ds.len(),
{
    if ds.len() == 0 {
        m
    } else {
        let prev = map_identity_uids(m, ds.drop_last(), id);
        if is_uid_door(ds.last()) {
            map_uids(prev, ds.last().children@, id)
        } else {
            prev
        }
    }
}

/// The UID mapping that the identity directories `cs` declare; a later
/// mapping of the same UID replaces an earlier one.
pub open spec fn uid_map_from(cs: Seq<TrieNode>) -> Map<u32, u64>
    decreases cs.len(),
{
    if cs.len() == 0 {
        Map::empty()
    } else {
        let prev = uid_map_from(cs.drop_last());
        match parse_unsigned(cs.last().segment@, u64::MAX as nat) {
            Some(id) => map_identity_uids(prev, cs.last().children@, id as u64),
            None => prev,
        }
    }
}

proof fn lemma_map_uids_keeps(m: Map<u32, u64>, gs: Seq<TrieNode>, id: u64, x: u32)
    requires
        m.contains_key(x),
    ensures
        map_uids(m, gs, id).contains_key(x),
    decreases gs.len(),
{
    if gs.len() > 0 {
        lemma_map_uids_keeps(m, gs.drop_last(), id, x);
    }
}

proof fn lemma_map_uids_has(m: Map<u32, u64>, gs: Seq<TrieNode>, id: u64, l: int, u: nat)
    requires
        0 <= l < gs.len(),
        parse_unsigned(gs[l].segment@, u32::MAX as nat) == Some(u),
    ensures
        map_uids(m, gs, id).contains_key(u as u32),
    decreases gs.len(),
{
    if l < gs.len() - 1 {
        assert(gs.drop_last()[l] == gs[l]);
        lemma_map_uids_has(m, gs.drop_last(), id, l, u);
    }
}

proof fn lemma_identity_uids_keeps(m: Map<u32, u64>, ds: Seq<TrieNode>, id: u64, x: u32)
    requires
        m.contains_key(x),
    ensures
        map_identity_uids(m, ds, id).contains_key(x),
    decreases ds.len(),
{
    if ds.len() > 0 {
        lemma_identity_uids_keeps(m, ds.drop_last(), id, x);
        if is_uid_door(ds.last()) {
            lemma_map_uids_keeps(map_identity_uids(m, ds.drop_last(), id), ds.last().children@, id, x);
        }
    }
}

proof fn lemma_identity_uids_has(m: Map<u32, u64>, ds: Seq<TrieNode>, id: u64, j: int, l: int, u: nat)
    requires
        0 <= j < ds.len(),
        is_uid_door(ds[j]),
        0 <= l < ds[j].children@.len(),
        parse_unsigned(ds[j].children@[l].segment@, u32::MAX as nat) == Some(u),
    ensures
        map_identity_uids(m, ds, id).contains_key(u as u32),
    decreases ds.len(),
{
    let prev = map_identity_uids(m, ds.drop_last(), id);
    if j < ds.len() - 1 {
        assert(ds.drop_last()[j] == ds[j]);
        lemma_identity_uids_has(m, ds.drop_last(), id, j, l, u);
        if is_uid_door(ds.last()) {
            lemma_map_uids_keeps(prev, ds.last().children@, id, u as u32);
        }
    } else {
        lemma_map_uids_has(prev, ds.last().children@, id, l, u);
    }
}

proof fn lemma_uid_map_from_has(cs: Seq<TrieNode>, k: int, j: int, l: int, u: nat)
    requires
        0 <= k < cs.len(),
        parse_unsigned(cs[k].segment@, u64::MAX as nat) is Some,
        0 <= j < cs[k].children@.len(),
        is_uid_door(cs[k].children@[j]),
        0 <= l < cs[k].children@[j].children@.len(),
        parse_unsigned(cs[k].children@[j].children@[l].segment@, u32::MAX as nat) == Some(u),
    ensures
        uid_map_from(cs).contains_key(u as u32),
    decreases cs.len(),
{
    let prev = uid_map_from(cs.drop_last());
    if k < cs.len() - 1 {
        assert(cs.drop_last()[k] == cs[k]);
        lemma_uid_map_from_has(cs.drop_last(), k, j, l, u);
        match parse_unsigned(cs.last().segment@, u64::MAX as nat) {
            Some(id) => lemma_identity_uids_keeps(prev, cs.last().children@, id as u64, u as u32),
            None => {},
        }
    } else {
        let id = parse_unsigned(cs.last().segment@, u64::MAX as nat)->0;
        lemma_identity_uids_has(prev, cs.last().children@, id as u64, j, l, u);
    }
}

/// Every UID listed below an identity's `-uid` node is mapped: for an
/// identity directory named by a number, each name below its `-uid` that
/// reads as a `u32` is a key of the loaded UID map (to that identity, unless
/// a later identity lists the same UID).
pub proof fn lemma_every_listed_uid_is_mapped(root: TrieNode, k: int, j: int, l: int, u: nat)
    requires
        lookup(root, crate::permissions::identities_path()) is Some,
        0 <= k < (lookup(root, crate::permissions::identities_path())->0).children@.len(),
        parse_unsigned((lookup(root, crate::permissions::identities_path())->0).children@[k].segment@, u64::MAX as nat) is Some,
        0 <= j < (lookup(root, crate::permissions::identities_path())->0).children@[k].children@.len(),
        (lookup(root, crate::permissions::identities_path())->0).children@[k].children@[j].class@ matches NodeClassView::Instruction { door, arg }
            && door == '-' && arg == "uid"@,
        0 <= l < (lookup(root, crate::permissions::identities_path())->0).children@[k].children@[j].children@.len(),
        parse_unsigned(
            (lookup(root, crate::permissions::identities_path())->0).children@[k].children@[j].children@[l].segment@,
            u32::MAX as nat,
        ) == Some(u),
    ensures
        uid_model(root).contains_key(u as u32),
{
    let cs = (lookup(root, crate::permissions::identities_path())->0).children@;
    lemma_uid_map_from_has(cs, k, j, l, u);
}

/// Whether the identity directory `d` lists the UID `u` below one of its
/// `-uid` nodes.
pub open spec fn lists_uid(d: TrieNode, u: nat) -> bool {
    exists|j: int, l: int|
        0 <= j < d.children@.len() && is_uid_door(d.children@[j]) && 0 <= l < d.children@[j].children@.len()
            && parse_unsigned(#[trigger] d.children@[j].children@[l].segment@, u32::MAX as nat) == Some(u)
}

proof fn lemma_map_uids_value(m: Map<u32, u64>, gs: Seq<TrieNode>, id: u64, u: nat)
    requires
        u <= u32::MAX,
    ensures
        (exists|l: int| 0 <= l < gs.len() && parse_unsigned(#[trigger] gs[l].segment@, u32::MAX as nat) == Some(u))
            ==> map_uids(m, gs, id).contains_key(u as u32) && map_uids(m, gs, id)[u as u32] == id,
        !(exists|l: int| 0 <= l < gs.len() && parse_unsigned(#[trigger] gs[l].segment@, u32::MAX as nat) == Some(u))
            ==> map_uids(m, gs, id).contains_key(u as u32) == m.contains_key(u as u32)
                && map_uids(m, gs, id)[u as u32] == m[u as u32],
    decreases gs.len(),
{
    if gs.len() > 0 {
        let pre = gs.drop_last();
        lemma_map_uids_value(m, pre, id, u);
        let listed_pre = exists|l: int| 0 <= l < pre.len() && parse_unsigned(#[trigger] pre[l].segment@, u32::MAX as nat) == Some(u);
        if listed_pre {
            let l = choose|l: int| 0 <= l < pre.len() && parse_unsigned(#[trigger] pre[l].segment@, u32::MAX as nat) == Some(u);
            assert(gs[l] == pre[l]);
        }
        if exists|l: int| 0 <= l < gs.len() && parse_unsigned(#[trigger] gs[l].segment@, u32::MAX as nat) == Some(u) {
            let l = choose|l: int| 0 <= l < gs.len() && parse_unsigned(#[trigger] gs[l].segment@, u32::MAX as nat) == Some(u);
            if l < gs.len() - 1 {
                assert(pre[l] == gs[l]);
            }
        } else {
            assert forall|l: int| 0 <= l < pre.len() implies parse_unsigned(#[trigger] pre[l].segment@, u32::MAX as nat) != Some(u) by {
                assert(gs[l] == pre[l]);
            }
            assert(parse_unsigned(gs[gs.len() - 1].segment@, u32::MAX as nat) != Some(u));
        }
    }
}

proof fn lemma_identity_uids_value(m: Map<u32, u64>, ds: Seq<TrieNode>, id: u64, u: nat)
    requires
        u <= u32::MAX,
    ensures
        (exists|j: int, l: int| 0 <= j < ds.len() && is_uid_door(ds[j]) && 0 <= l < ds[j].children@.len()
            && parse_unsigned(#[trigger] ds[j].children@[l].segment@, u32::MAX as nat) == Some(u))
            ==> map_identity_uids(m, ds, id).contains_key(u as u32) && map_identity_uids(m, ds, id)[u as u32] == id,
        !(exists|j: int, l: int| 0 <= j < ds.len() && is_uid_door(ds[j]) && 0 <= l < ds[j].children@.len()
            && parse_unsigned(#[trigger] ds[j].children@[l].segment@, u32::MAX as nat) == Some(u))
            ==> map_identity_uids(m, ds, id).contains_key(u as u32) == m.contains_key(u as u32)
                && map_identity_uids(m, ds, id)[u as u32] == m[u as u32],
    decreases ds.len(),
{
    if ds.len() > 0 {
        let pre = ds.drop_last();
        let last = ds.last();
        let prev = map_identity_uids(m, pre, id);
        lemma_identity_uids_value(m, pre, id, u);
        lemma_map_uids_value(prev, last.children@, id, u);
        let in_last = is_uid_door(last) && exists|l: int|
            0 <= l < last.children@.len() && parse_unsigned(#[trigger] last.children@[l].segment@, u32::MAX as nat) == Some(u);
        let in_pre = exists|j: int, l: int| 0 <= j < pre.len() && is_uid_door(pre[j]) && 0 <= l < pre[j].children@.len()
            && parse_unsigned(#[trigger] pre[j].children@[l].segment@, u32::MAX as nat) == Some(u);
        if in_pre {
            let (j, l) = choose|j: int, l: int| 0 <= j < pre.len() && is_uid_door(pre[j]) && 0 <= l < pre[j].children@.len()
                && parse_unsigned(#[trigger] pre[j].children@[l].segment@, u32::MAX as nat) == Some(u);
            assert(ds[j] == pre[j]);
        }
        if in_last {
            let l = choose|l: int| 0 <= l < last.children@.len() && parse_unsigned(#[trigger] last.children@[l].segment@, u32::MAX as nat) == Some(u);
            assert(ds[ds.len() - 1] == last);
        }
        if exists|j: int, l: int| 0 <= j < ds.len() && is_uid_door(ds[j]) && 0 <= l < ds[j].children@.len()
            && parse_unsigned(#[trigger] ds[j].children@[l].segment@, u32::MAX as nat) == Some(u) {
            let (j, l) = choose|j: int, l: int| 0 <= j < ds.len() && is_uid_door(ds[j]) && 0 <= l < ds[j].children@.len()
                && parse_unsigned(#[trigger] ds[j].children@[l].segment@, u32::MAX as nat) == Some(u);
            if j < ds.len() - 1 {
                assert(pre[j] == ds[j]);
                assert(is_uid_door(pre[j]) && parse_unsigned(pre[j].children@[l].segment@, u32::MAX as nat) == Some(u));
                assert(prev.contains_key(u as u32) && prev[u as u32] == id);
            } else {
                assert(ds[j] == last);
                assert(parse_unsigned(last.children@[l].segment@, u32::MAX as nat) == Some(u));
            }
        } else {
            assert forall|j: int, l: int| 0 <= j < pre.len() && is_uid_door(pre[j]) && 0 <= l < pre[j].children@.len()
                implies parse_unsigned(#[trigger] pre[j].children@[l].segment@, u32::MAX as nat) != Some(u) by {
                assert(ds[j] == pre[j]);
            }
            if is_uid_door(last) {
                assert forall|l: int| 0 <= l < last.children@.len()
                    implies parse_unsigned(#[trigger] last.children@[l].segment@, u32::MAX as nat) != Some(u) by {
                    assert(ds[ds.len() - 1] == last);
                }
            }
        }
    }
}

/// The identity a UID maps to is the last identity directory (in name
/// order) that lists it: if the identity at `k`, named by the number `id`,
/// lists `u` and no later one does, `u` maps to `id`.
pub proof fn lemma_listed_uid_maps_to_its_identity(cs: Seq<TrieNode>, k: int, u: nat, id: nat)
    requires
        0 <= k < cs.len(),
        u <= u32::MAX,
        parse_unsigned(cs[k].segment@, u64::MAX as nat) == Some(id),
        lists_uid(cs[k], u),
        forall|k2: int| k < k2 < cs.len() ==> !lists_uid(#[trigger] cs[k2], u),
    ensures
        uid_map_from(cs).contains_key(u as u32),
        uid_map_from(cs)[u as u32] == id as u64,
    decreases cs.len(),
{
    let pre = cs.drop_last();
    let last = cs.last();
    let prev = uid_map_from(pre);
    if k < cs.len() - 1 {
        assert(pre[k] == cs[k]);
        assert forall|k2: int| k < k2 < pre.len() implies !lists_uid(#[trigger] pre[k2], u) by {
            assert(cs[k2] == pre[k2]);
        }
        lemma_listed_uid_maps_to_its_identity(pre, k, u, id);
        assert(!lists_uid(cs[cs.len() - 1], u));
        match parse_unsigned(last.segment@, u64::MAX as nat) {
            Some(id2) => {
                lemma_identity_uids_value(prev, last.children@, id2 as u64, u);
                assert(!lists_uid(last, u));
            },
            None => {},
        }
    } else {
        lemma_identity_uids_value(prev, last.children@, id as u64, u);
        let (j, l) = choose|j: int, l: int|
            0 <= j < last.children@.len() && is_uid_door(last.children@[j]) && 0 <= l < last.children@[j].children@.len()
                && parse_unsigned(#[trigger] last.children@[j].children@[l].segment@, u32::MAX as nat) == Some(u);
        assert(0 <= j < last.children@.len() && is_uid_door(last.children@[j]) && 0 <= l < last.children@[j].children@.len()
            && parse_unsigned(last.children@[j].children@[l].segment@, u32::MAX as nat) == Some(u));
    }
}

/// The UID mapping that the trie declares.
pub open spec fn uid_model(root: TrieNode) -> Map<u32, u64> {
    match lookup(root, crate::permissions::identities_path()) {
        Some(n) => uid_map_from(n.children@),
        None => Map::empty(),
    }
}

/// The identity a peer with UID `uid` starts as.
pub open spec fn identity_for(uids: Map<u32, u64>, uid: u32) -> u64 {
    if uids.contains_key(uid) { uids[uid] } else { DEFAULT_IDENTITY }
}

fn uid_door(c: &TrieNode) -> (r: bool)
    ensures
        r == is_uid_door(*c),
{
    match &c.class {
        NodeClass::Instruction { door, arg } => *door == '-' && str_eq(arg.as_str(), "uid"),
        _ => false,
    }
}

fn add_uids(m: &mut HashMap<u32, u64>, node: &TrieNode, id: u64)
    ensures
        final(m)@ == map_uids(old(m)@, node.children@, id),
{
    let ghost m0 = m@;
    let mut i: usize = 0;
    while i < node.children.len()
        invariant
            i <= node.children@.len(),
            m@ == map_uids(m0, node.children@.take(i as int), id),
        decreases node.children@.len() - i,
    {
        assert(node.children@.take(i + 1).drop_last() == node.children@.take(i as int));
        match parse_unsigned_str(node.children[i].segment.as_str(), u32::MAX as u64) {
            Some(u) => {
                m.insert(u as u32, id);
            },
            None => {},
        }
        i += 1;
    }
    assert(node.children@.take(node.children@.len() as int) == node.children@);
}

fn add_identity_uids(m: &mut HashMap<u32, u64>, node: &TrieNode, id: u64)
    ensures
        final(m)@ == map_identity_uids(old(m)@, node.children@, id),
{
    let ghost m0 = m@;
    let mut i: usize = 0;
    while i < node.children.len()
        invariant
            i <= node.children@.len(),
            m@ == map_identity_uids(m0, node.children@.take(i as int), id),
        decreases node.children@.len() - i,
    {
        assert(node.children@.take(i + 1).drop_last() == node.children@.take(i as int));
        if uid_door(&node.children[i]) {
            add_uids(m, &node.children[i], id);
        }
        i += 1;
    }
    assert(node.children@.take(node.children@.len() as int) == node.children@);
}

/// Read the UID mapping from `hard/identities/{id}/-uid/{unix_uid}`.
fn load_uid_map(trie: &Trie) -> (m: HashMap<u32, u64>)
    ensures
        m@ == uid_model(trie.root),
{
    let mut m: HashMap<u32, u64> = HashMap::new();
    let path = vec!["hard", "identities"];
    assert(crate::strings::strs_view(path@) =~= crate::permissions::identities_path());
    let node = match trie.get(path.as_slice()) {
        Some(n) => n,
        None => {
            return m;
        },
    };
    let mut i: usize = 0;
    while i < node.children.len()
        invariant
            i <= node.children@.len(),
            m@ == uid_map_from(node.children@.take(i as int)),
        decreases node.children@.len() - i,
    {
        assert(node.children@.take(i + 1).drop_last() == node.children@.take(i as int));
        match parse_unsigned_str(node.children[i].segment.as_str(), u64::MAX) {
            Some(id) => {
                add_identity_uids(&mut m, &node.children[i], id);
            },
            None => {},
        }
        i += 1;
    }
    assert(node.children@.take(node.children@.len() as int) == node.children@);
    m
}

// ---------------------------------------------------------------------------
// The session manager
// ---------------------------------------------------------------------------

/// Manages the sessions of all connections. The connections share it behind
/// a lock that its holder takes; the manager itself takes none.
pub struct SessionManager {
    uid_map: HashMap<u32, u64>,
    table: SessionTable,
    default_identity: u64,
}

impl SessionManager {
    /// The UID mapping.
    pub closed spec fn uids(&self) -> Map<u32, u64> {
        self.uid_map@
    }

    /// The sessions in progress.
    pub closed spec fn sessions(&self) -> SessionTableView {
        self.table@
    }

    /// Load the UID mapping from the trie; no session is open yet, and the
    /// first one will be number 1.
    pub fn load(trie: &Trie) -> (m: SessionManager)
        ensures
            m.uids() == uid_model(trie.root),
            m.sessions().next_id == 1,
            m.sessions().active == Map::<u64, Session>::empty(),
    {
        SessionManager { uid_map: load_uid_map(trie), table: SessionTable::new(), default_identity: DEFAULT_IDENTITY }
    }

    /// The identity mapped to a UID, if any.
    pub fn identity_for_uid(&self, unix_uid: u32) -> (r: Option<u64>)
        ensures
            r == if self.uids().contains_key(unix_uid) { Some(self.uids()[unix_uid]) } else { None },
    {
        match self.uid_map.get(&unix_uid) {
            Some(id) => Some(*id),
            None => None,
        }
    }

    /// The number of mapped UIDs.
    pub fn uid_mapping_count(&self) -> (n: usize)
        ensures
            n == self.uids().dom().len(),
    {
        self.uid_map.len()
    }

    /// Open a session for a connecting peer: its UID's identity, or a guest.
    /// The session is numbered with the counter, which moves on, and is
    /// stamped with the time of connection.
    pub fn create_session(&mut self, unix_uid: u32, unix_pid: Option<i32>) -> (s: Session)
        ensures
            s.id == old(self).sessions().next_id,
            s.identity_id == identity_for(old(self).uids(), unix_uid),
            s.unix_uid == unix_uid,
            s.unix_pid == unix_pid,
            final(self).sessions().next_id == next_number(old(self).sessions().next_id),
            final(self).sessions().active == old(self).sessions().active.insert(s.id, s),
            final(self).uids() == old(self).uids(),
    {
        let identity_id = match self.uid_map.get(&unix_uid) {
            Some(id) => *id,
            None => DEFAULT_IDENTITY,
        };
        let now = crate::clock::now_nanos();
        self.table.create(identity_id, unix_uid, unix_pid, now)
    }

    /// Close a session (on disconnect); the session, if it was open.
    pub fn destroy_session(&mut self, session_id: u64) -> (r: Option<Session>)
        ensures
            r == session_at(old(self).sessions().active, session_id),
            final(self).sessions().active == old(self).sessions().active.remove(session_id),
            final(self).sessions().next_id == old(self).sessions().next_id,
            final(self).uids() == old(self).uids(),
    {
        self.table.destroy(session_id)
    }

    /// A snapshot of a session.
    pub fn get_session(&self, session_id: u64) -> (r: Option<Session>)
        ensures
            r == session_at(self.sessions().active, session_id),
    {
        self.table.get(session_id)
    }

    /// The numbers of all open sessions, each once, in no particular order.
    pub fn active_session_ids(&self) -> (r: Vec<u64>)
        ensures
            r@.to_set() == self.sessions().active.dom(),
            r@.no_duplicates(),
    {
        self.table.ids()
    }

    /// Switch a session to the identity it authenticated as; the identity it
    /// had, or `None` (and no change) when the session is not open.
    pub fn authenticate_session(&mut self, session_id: u64, new_identity_id: u64) -> (r: Option<u64>)
        ensures
            r == match session_at(old(self).sessions().active, session_id) {
                Some(s) => Some(s.identity_id),
                None => None,
            },
            final(self).sessions().active == match session_at(old(self).sessions().active, session_id) {
                Some(s) => old(self).sessions().active.insert(session_id, Session { identity_id: new_identity_id, ..s }),
                None => old(self).sessions().active,
            },
            final(self).sessions().next_id == old(self).sessions().next_id,
            final(self).uids() == old(self).uids(),
    {
        self.table.authenticate(session_id, new_identity_id)
    }

    /// The filesystem effects that record a session:
    /// `sessions/~{id}/` with `-identity/{identity}`, `-uid/{uid}` and
    /// `-state/active`.
    pub fn session_effects_create(session: &Session) -> (r: Vec<Effect>)
        ensures
            effects_view(r@) == session_create_effects(*session),
    {
        let n = u64_to_string(session.id);
        let base = concat("sessions/~", n.as_str());
        let identity = u64_to_string(session.identity_id);
        let uid = u64_to_string(session.unix_uid as u64);
        let identity_dir = concat(base.as_str(), "/-identity");
        let uid_dir = concat(base.as_str(), "/-uid");
        let state_dir = concat(base.as_str(), "/-state");
        let identity_file = concat3s(identity_dir.as_str(), "/", identity.as_str());
        let uid_file = concat3s(uid_dir.as_str(), "/", uid.as_str());
        let state_file = concat(state_dir.as_str(), "/active");
        let r = vec![
            Effect::MakeDir { path: base },
            Effect::MakeDir { path: identity_dir },
            Effect::Touch { path: identity_file },
            Effect::MakeDir { path: uid_dir },
            Effect::Touch { path: uid_file },
            Effect::MakeDir { path: state_dir },
            Effect::Touch { path: state_file },
        ];
        assert(effects_view(r@) =~= session_create_effects(*session));
        r
    }

    /// The filesystem effects that erase a session's record, deepest first.
    pub fn session_effects_destroy(session: &Session) -> (r: Vec<Effect>)
        ensures
            effects_view(r@) == session_destroy_effects(*session),
    {
        let n = u64_to_string(session.id);
        let base = concat("sessions/~", n.as_str());
        let identity = u64_to_string(session.identity_id);
        let uid = u64_to_string(session.unix_uid as u64);
        let identity_dir = concat(base.as_str(), "/-identity");
        let uid_dir = concat(base.as_str(), "/-uid");
        let state_dir = concat(base.as_str(), "/-state");
        let identity_file = concat3s(identity_dir.as_str(), "/", identity.as_str());
        let uid_file = concat3s(uid_dir.as_str(), "/", uid.as_str());
        let state_file = concat(state_dir.as_str(), "/active");
        let r = vec![
            Effect::Remove { path: state_file },
            Effect::Remove { path: state_dir },
            Effect::Remove { path: uid_file },
            Effect::Remove { path: uid_dir },
            Effect::Remove { path: identity_file },
            Effect::Remove { path: identity_dir },
            Effect::Remove { path: base },
        ];
        assert(effects_view(r@) =~= session_destroy_effects(*session));
        r
    }
}

fn concat3s(a: &str, b: &str, c: &str) -> (r: String)
    ensures
        r@ == a@ + b@ + c@,
{
    crate::strings::concat3(a, b, c)
}

/// `sessions/~{id}`.
pub open spec fn session_base(s: Session) -> Seq<char> {
    "sessions/~"@ + decimal(s.id as nat)
}

/// The effects that record a session.
pub open spec fn session_create_effects(s: Session) -> Seq<EffectView> {
    let base = session_base(s);
    seq![
        EffectView::MakeDir(base),
        EffectView::MakeDir(base + "/-identity"@),
        EffectView::Touch(base + "/-identity"@ + "/"@ + decimal(s.identity_id as nat)),
        EffectView::MakeDir(base + "/-uid"@),
        EffectView::Touch(base + "/-uid"@ + "/"@ + decimal(s.unix_uid as nat)),
        EffectView::MakeDir(base + "/-state"@),
        EffectView::Touch(base + "/-state"@ + "/active"@),
    ]
}

/// The effects that erase a session's record.
pub open spec fn session_destroy_effects(s: Session) -> Seq<EffectView> {
    let base = session_base(s);
    seq![
        EffectView::Remove(base + "/-state"@ + "/active"@),
        EffectView::Remove(base + "/-state"@),
        EffectView::Remove(base + "/-uid"@ + "/"@ + decimal(s.unix_uid as nat)),
        EffectView::Remove(base + "/-uid"@),
        EffectView::Remove(base + "/-identity"@ + "/"@ + decimal(s.identity_id as nat)),
        EffectView::Remove(base + "/-identity"@),
        EffectView::Remove(base),
    ]
}

/// Erasing a session's record removes exactly what recording it created,
/// in the reverse order.
pub proof fn lemma_destroy_undoes_create(s: Session)
    ensures
        session_destroy_effects(s).len() == session_create_effects(s).len(),
        forall|i: int| 0 <= i < session_create_effects(s).len() ==> crate::effector::effect_path(
            #[trigger] session_destroy_effects(s)[i],
        ) == crate::effector::effect_path(session_create_effects(s)[6 - i]),
{
    assert forall|i: int| 0 <= i < session_create_effects(s).len() implies crate::effector::effect_path(
        #[trigger] session_destroy_effects(s)[i],
    ) == crate::effector::effect_path(session_create_effects(s)[6 - i]) by {
        if i == 0 {} else if i == 1 {} else if i == 2 {} else if i == 3 {} else if i == 4 {} else if i == 5 {} else {}
    }
}

// ---------------------------------------------------------------------------
// Per-connection context
// ---------------------------------------------------------------------------

/// The permission outcome for one identity: `Ok` when the engine allows,
/// else the permission error naming the identity, the verb and the path.
pub open spec fn permission_outcome(engine: crate::permissions::PermissionEngineView, identity: u64, verb: Verb, target: Seq<Seq<char>>) -> Result<(), (u64, Seq<char>, Seq<char>)> {
    if check_spec(engine, identity, verb, target).0 {
        Ok(())
    } else {
        Err((identity, verb_debug(verb), join_seq(target, "/"@)))
    }
}

/// The view of a permission result of the engine's API.
pub open spec fn outcome_view(r: Result<(), PithError>) -> Result<(), (u64, Seq<char>, Seq<char>)> {
    match r {
        Ok(()) => Ok(()),
        Err(PithError::Permission { identity, verb, path }) => Err((identity, verb@, path@)),
        Err(_) => Err((0, Seq::empty(), Seq::empty())),
    }
}

/// Check a verb on a path for one identity.
pub fn check_identity(engine: &PermissionEngine, identity: u64, verb: Verb, target: &[&str]) -> (r: Result<(), PithError>)
    ensures
        (r matches Err(e) ==> e is Permission),
        outcome_view(r) == permission_outcome(engine@, identity, verb, crate::strings::strs_view(target@)),
{
    match engine.check(identity, verb, target) {
        PermissionResult::Allow { .. } => Ok(()),
        PermissionResult::Deny { .. } => Err(PithError::Permission {
            identity,
            verb: owned(verb.debug_name()),
            path: join_strs(target, "/"),
        }),
    }
}

/// The table after the session `id` switched to `new_identity` (unchanged
/// when that session is not open).
pub open spec fn authenticated_table(t: SessionTableView, id: u64, new_identity: u64) -> SessionTableView {
    SessionTableView {
        next_id: t.next_id,
        active: match session_at(t.active, id) {
            Some(s) => t.active.insert(id, Session { identity_id: new_identity, ..s }),
            None => t.active,
        },
    }
}

/// What one connection carries: its session, the shared session manager
/// (behind the lock the connections share), the permission engine, and
/// whether permissions are enforced.
pub struct SessionContext {
    pub session_id: u64,
    pub session_manager: Arc<RwLock<SessionManager>>,
    pub permissions: Arc<PermissionEngine>,
    pub enforce: bool,
}

/// The identity the session `id` acts as in the table: the identity it
/// holds, or a guest when it is not open.
pub open spec fn acting_identity(t: SessionTableView, id: u64) -> u64 {
    match session_at(t.active, id) {
        Some(s) => s.identity_id,
        None => DEFAULT_IDENTITY,
    }
}

impl SessionContext {
    /// The current snapshot of the session (after any upgrade), read from
    /// `manager` (the session manager as its lock holder sees it).
    pub fn session(&self, manager: &SessionManager) -> (r: Option<Session>)
        ensures
            r == session_at(manager.sessions().active, self.session_id),
    {
        manager.get_session(self.session_id)
    }

    /// The identity the session acts as now; a guest if the session vanished.
    pub fn identity_id(&self, manager: &SessionManager) -> (r: u64)
        ensures
            r == acting_identity(manager.sessions(), self.session_id),
    {
        match self.session(manager) {
            Some(s) => s.identity_id,
            None => DEFAULT_IDENTITY,
        }
    }

    /// Whether the session's identity may perform `verb` on `target`; always
    /// allowed when permissions are not enforced. When they are, the answer
    /// is the engine's verdict for the identity the session acts as in
    /// `manager`; a refusal names that identity.
    pub fn check_permission(&self, manager: &SessionManager, verb: Verb, target: &[&str]) -> (r: Result<(), PithError>)
        ensures
            !self.enforce ==> r is Ok,
            self.enforce ==> outcome_view(r) == permission_outcome(
                (*self.permissions)@,
                acting_identity(manager.sessions(), self.session_id),
                verb,
                crate::strings::strs_view(target@),
            ),
            r matches Err(e) ==> e is Permission,
    {
        if !self.enforce {
            return Ok(());
        }
        let identity_id = self.identity_id(manager);
        check_identity(&*self.permissions, identity_id, verb, target)
    }

    /// The permission gate of an API request: the verb the operation needs
    /// (none for `ping` and `authenticate`) checked on the request path's
    /// segments.
    pub fn check_request(&self, manager: &SessionManager, op: &str, path: &str) -> (r: Result<(), PithError>)
        ensures
            match op_verb(op@) {
                None => r is Ok,
                Some(verb) => (!self.enforce ==> r is Ok) && (self.enforce ==> outcome_view(r) == permission_outcome(
                    (*self.permissions)@,
                    acting_identity(manager.sessions(), self.session_id),
                    verb,
                    crate::api::request_segments(path@),
                )) && (r matches Err(e) ==> e is Permission),
            },
    {
        match verb_for_op(op) {
            None => Ok(()),
            Some(verb) => {
                let segs = crate::api::path_segments(path);
                let refs = crate::strings::str_refs(&segs);
                self.check_permission(manager, verb, refs.as_slice())
            },
        }
    }
}

/// The verb an API operation needs: none for `ping` and `authenticate`,
/// read for `status`, `ls`, `query` and `db_query`, write for `touch`,
/// `mkdir`, `rm`, `mv` and `create_identity`, execute for any other.
pub open spec fn op_verb(op: Seq<char>) -> Option<Verb> {
    if op == "ping"@ || op == "authenticate"@ {
        None
    } else if op == "status"@ || op == "ls"@ || op == "query"@ || op == "db_query"@ {
        Some(Verb::Read)
    } else if op == "touch"@ || op == "mkdir"@ || op == "rm"@ || op == "mv"@ || op == "create_identity"@ {
        Some(Verb::Write)
    } else {
        Some(Verb::Execute)
    }
}

/// Map an API operation to the verb it requires.
pub fn verb_for_op(op: &str) -> (r: Option<Verb>)
    ensures
        r == op_verb(op@),
{
    if str_eq(op, "ping") || str_eq(op, "authenticate") {
        None
    } else if str_eq(op, "status") || str_eq(op, "ls") || str_eq(op, "query") || str_eq(op, "db_query") {
        Some(Verb::Read)
    } else if str_eq(op, "touch") || str_eq(op, "mkdir") || str_eq(op, "rm") || str_eq(op, "mv") || str_eq(
        op,
        "create_identity",
    ) {
        Some(Verb::Write)
    } else {
        Some(Verb::Execute)
    }
}

} // verus!
