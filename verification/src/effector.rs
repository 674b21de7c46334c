//! Filesystem effects and the set of operations the engine has pending.
//!
//! Subsystems never write: they answer with effects, which the effector
//! carries out. Before each write the effector records the path as pending,
//! so that the watcher can tell the engine's own changes from outside ones.
use std::sync::{Arc, Mutex};
use vstd::prelude::*;
use crate::strings::{concat, concat3, owned, starts_with_char, str_eq, strings_view};
use crate::sync::new_mutex;

verus! {

/// A filesystem effect, on paths relative to the filesystem root.
#[derive(Debug, PartialEq, Eq)]
pub enum Effect {
    /// Create a zero-byte file.
    Touch { path: String },
    /// Create a zero-byte file with a given modification time (nanoseconds
    /// since the Unix epoch).
    TouchWithMtime { path: String, mtime: u64 },
    /// Delete a file or an empty directory.
    Remove { path: String },
    /// Rename or move a file or directory.
    Move { from: String, to: String },
    /// Create a directory and its parents.
    MakeDir { path: String },
}

/// The mathematical value of an effect.
pub enum EffectView {
    Touch(Seq<char>),
    TouchWithMtime(Seq<char>, u64),
    Remove(Seq<char>),
    Move(Seq<char>, Seq<char>),
    MakeDir(Seq<char>),
}

impl View for Effect {
    type V = EffectView;

    open spec fn view(&self) -> EffectView {
        match self {
            Effect::Touch { path } => EffectView::Touch(path@),
            Effect::TouchWithMtime { path, mtime } => EffectView::TouchWithMtime(path@, *mtime),
            Effect::Remove { path } => EffectView::Remove(path@),
            Effect::Move { from, to } => EffectView::Move(from@, to@),
            Effect::MakeDir { path } => EffectView::MakeDir(path@),
        }
    }
}

/// The views of a list of effects.
pub open spec fn effects_view(v: Seq<Effect>) -> Seq<EffectView> {
    v.map_values(|e: Effect| e@)
}

impl Clone for Effect {
    fn clone(&self) -> (r: Self)
        ensures
            r@ == self@,
    {
        match self {
            Effect::Touch { path } => Effect::Touch { path: path.clone() },
            Effect::TouchWithMtime { path, mtime } => Effect::TouchWithMtime { path: path.clone(), mtime: *mtime },
            Effect::Remove { path } => Effect::Remove { path: path.clone() },
            Effect::Move { from, to } => Effect::Move { from: from.clone(), to: to.clone() },
            Effect::MakeDir { path } => Effect::MakeDir { path: path.clone() },
        }
    }
}

/// The primary path of an effect: the source of a move.
pub open spec fn effect_path(e: EffectView) -> Seq<char> {
    match e {
        EffectView::Touch(p) => p,
        EffectView::TouchWithMtime(p, _) => p,
        EffectView::Remove(p) => p,
        EffectView::Move(from, _) => from,
        EffectView::MakeDir(p) => p,
    }
}

impl Effect {
    /// The primary path affected by this effect.
    pub fn path(&self) -> (r: &str)
        ensures
            r@ == effect_path(self@),
    {
        match self {
            Effect::Touch { path } => path.as_str(),
            Effect::TouchWithMtime { path, .. } => path.as_str(),
            Effect::Remove { path } => path.as_str(),
            Effect::Move { from, .. } => from.as_str(),
            Effect::MakeDir { path } => path.as_str(),
        }
    }
}

/// `path` resolved against `root` as `Path::join` does: an absolute path
/// stands as it is; otherwise it is appended to the root, with one `/`
/// between them unless the root is empty or already ends in one.
pub open spec fn joined_path(root: Seq<char>, path: Seq<char>) -> Seq<char> {
    if path.len() > 0 && path[0] == '/' {
        path
    } else if root.len() == 0 {
        path
    } else if root.last() == '/' {
        root + path
    } else {
        root + seq!['/'] + path
    }
}

/// Resolve `path` against the filesystem root `root`.
pub fn join_path(root: &str, path: &str) -> (r: String)
    ensures
        r@ == joined_path(root@, path@),
{
    if starts_with_char(path, '/') {
        return owned(path);
    }
    let rs = crate::strings::chars_of(root);
    if rs.len() == 0 {
        return owned(path);
    }
    if rs[rs.len() - 1] == '/' {
        concat(root, path)
    } else {
        proof {
            reveal_strlit("/");
        }
        let r = concat3(root, "/", path);
        assert("/"@ =~= seq!['/']);
        r
    }
}

/// Resolving a path as `Path::join` does: an absolute path stays as it is; a
/// relative one goes below the root, with exactly one `/` between them; the
/// path always ends the result.
pub proof fn lemma_resolved_paths(root: Seq<char>, path: Seq<char>)
    ensures
        path.len() > 0 && path[0] == '/' ==> joined_path(root, path) == path,
        !(path.len() > 0 && path[0] == '/') && root.len() > 0 ==> crate::strings::is_prefix(root, joined_path(root, path)),
        !(path.len() > 0 && path[0] == '/') && root.len() > 0 && root[root.len() - 1] == '/' ==> joined_path(root, path) == root + path,
        !(path.len() > 0 && path[0] == '/') && root.len() > 0 && root[root.len() - 1] != '/' ==> joined_path(root, path) == root + seq!['/'] + path,
        joined_path(root, path).len() >= path.len(),
        joined_path(root, path).subrange(joined_path(root, path).len() - path.len(), joined_path(root, path).len() as int) == path,
{
    let j = joined_path(root, path);
    if !(path.len() > 0 && path[0] == '/') && root.len() > 0 {
        assert(j.subrange(0, root.len() as int) =~= root);
    }
    assert(j.subrange(j.len() - path.len(), j.len() as int) =~= path);
}

/// A set of paths, each held once.
#[derive(Debug)]
pub struct PendingSet {
    paths: Vec<String>,
}

impl View for PendingSet {
    type V = Set<Seq<char>>;

    closed spec fn view(&self) -> Set<Seq<char>> {
        strings_view(self.paths@).to_set()
    }
}

impl PendingSet {
    /// The empty set.
    pub fn new() -> (s: PendingSet)
        ensures
            s@ == Set::<Seq<char>>::empty(),
    {
        let s = PendingSet { paths: Vec::new() };
        assert(strings_view(s.paths@).to_set() =~= Set::<Seq<char>>::empty());
        s
    }

    /// The position of `path`, if it is held.
    fn position(&self, path: &str) -> (r: Option<usize>)
        ensures
            match r {
                Some(i) => i < self.paths@.len() && self.paths@[i as int]@ == path@,
                None => !self@.contains(path@),
            },
    {
        let mut i: usize = 0;
        while i < self.paths.len()
            invariant
                i <= self.paths@.len(),
                forall|j: int| 0 <= j < i ==> (#[trigger] self.paths@[j])@ != path@,
            decreases self.paths@.len() - i,
        {
            if str_eq(self.paths[i].as_str(), path) {
                return Some(i);
            }
            i += 1;
        }
        proof {
            if strings_view(self.paths@).contains(path@) {
                let k = choose|k: int| 0 <= k < strings_view(self.paths@).len() && strings_view(self.paths@)[k] == path@;
                assert(self.paths@[k]@ == path@);
            }
        }
        None
    }

    /// Whether `path` is held.
    pub fn contains(&self, path: &str) -> (r: bool)
        ensures
            r == self@.contains(path@),
    {
        match self.position(path) {
            Some(i) => {
                assert(strings_view(self.paths@)[i as int] == path@);
                true
            },
            None => false,
        }
    }

    /// Add `path` (nothing changes if it is already held).
    pub fn insert(&mut self, path: &str)
        ensures
            final(self)@ == old(self)@.insert(path@),
    {
        match self.position(path) {
            Some(i) => {
                assert(strings_view(self.paths@)[i as int] == path@);
                assert(self@.insert(path@) =~= self@);
            },
            None => {
                let ghost before = strings_view(self.paths@);
                self.paths.push(owned(path));
                assert(strings_view(self.paths@) =~= before.push(path@));
                proof {
                    crate::strings::lemma_push_to_set(before, path@);
                }
            },
        }
    }

    /// Remove `path`; whether it was held.
    pub fn remove(&mut self, path: &str) -> (r: bool)
        ensures
            r == old(self)@.contains(path@),
            final(self)@ == old(self)@.remove(path@),
    {
        let ghost before = strings_view(self.paths@);
        let mut kept: Vec<String> = Vec::new();
        let mut found = false;
        let mut i: usize = 0;
        while i < self.paths.len()
            invariant
                before == strings_view(self.paths@),
                i <= before.len(),
                strings_view(kept@).to_set() == before.take(i as int).to_set().remove(path@),
                found == before.take(i as int).contains(path@),
            decreases before.len() - i,
        {
            let ghost pre = before.take(i as int);
            assert(before.take(i + 1) =~= pre.push(before[i as int]));
            assert(before[i as int] == self.paths@[i as int]@);
            proof {
                crate::strings::lemma_push_to_set(pre, before[i as int]);
            }
            if str_eq(self.paths[i].as_str(), path) {
                found = true;
                assert(pre.push(before[i as int]).to_set().remove(path@) =~= pre.to_set().remove(path@));
                assert(pre.push(before[i as int])[i as int] == path@);
                assert(before.take(i + 1).contains(path@));
            } else {
                assert(pre.push(before[i as int]).contains(path@) == pre.contains(path@)) by {
                    if pre.push(before[i as int]).contains(path@) {
                        let k = choose|k: int| 0 <= k < pre.len() + 1 && pre.push(before[i as int])[k] == path@;
                        assert(k < pre.len());
                        assert(pre[k] == path@);
                    }
                    if pre.contains(path@) {
                        let k = choose|k: int| 0 <= k < pre.len() && pre[k] == path@;
                        assert(pre.push(before[i as int])[k] == path@);
                    }
                }
                let ghost k0 = strings_view(kept@);
                kept.push(self.paths[i].clone());
                assert(strings_view(kept@) =~= k0.push(before[i as int]));
                proof {
                    crate::strings::lemma_push_to_set(k0, before[i as int]);
                }
                assert(pre.push(before[i as int]).to_set().remove(path@) =~= pre.to_set().remove(path@).insert(before[i as int]));
            }
            i += 1;
        }
        assert(before.take(before.len() as int) == before);
        self.paths = kept;
        found
    }
}

/// `Arc::clone`: another handle to the same value.
#[verifier::external_body]
pub(crate) fn share<T>(a: &Arc<T>) -> (r: Arc<T>)
    ensures
        *r == **a,
{
    Arc::clone(a)
}

/// The effector: resolves effect paths against the filesystem root and keeps
/// the set of paths with pending operations, shared with the watcher.
#[derive(Debug, Clone)]
pub struct Effector {
    fs_root: String,
    pending: Arc<Mutex<PendingSet>>,
}

impl Effector {
    /// The filesystem root this effector writes below.
    pub closed spec fn root(&self) -> Seq<char> {
        self.fs_root@
    }

    /// An effector for the given filesystem root, with nothing pending.
    pub fn new(fs_root: String) -> (e: Effector)
        ensures
            e.root() == fs_root@,
    {
        Effector { fs_root, pending: Arc::new(new_mutex(PendingSet::new())) }
    }

    /// The filesystem root.
    pub fn fs_root(&self) -> (r: &str)
        ensures
            r@ == self.root(),
    {
        self.fs_root.as_str()
    }

    /// The lock around the set of pending paths.
    pub closed spec fn pending_lock(&self) -> Mutex<PendingSet> {
        *self.pending
    }

    /// The pending set, shared (for the watcher): another handle to the
    /// effector's own lock.
    pub fn pending_ops(&self) -> (r: Arc<Mutex<PendingSet>>)
        ensures
            *r == self.pending_lock(),
    {
        share(&self.pending)
    }

    /// The full path of an effect's path.
    pub fn resolve_path(&self, path: &str) -> (r: String)
        ensures
            r@ == joined_path(self.root(), path@),
    {
        join_path(self.fs_root.as_str(), path)
    }

    /// Record `path` as pending (before the engine writes it), in the set
    /// `pending` (the effector's set, as its lock holder has it).
    pub fn register_pending(pending: &mut PendingSet, path: &str)
        ensures
            final(pending)@ == old(pending)@.insert(path@),
    {
        pending.insert(path);
    }

    /// Forget `path` (after a failed write).
    pub fn unregister_pending(pending: &mut PendingSet, path: &str)
        ensures
            final(pending)@ == old(pending)@.remove(path@),
    {
        pending.remove(path);
    }

    /// Whether `path` was pending; it is no longer pending afterwards.
    pub fn consume_pending(pending: &mut PendingSet, path: &str) -> (r: bool)
        ensures
            r == old(pending)@.contains(path@),
            final(pending)@ == old(pending)@.remove(path@),
    {
        pending.remove(path)
    }

    /// Whether `path` is pending, without consuming it.
    pub fn is_pending(pending: &PendingSet, path: &str) -> (r: bool)
        ensures
            r == pending@.contains(path@),
    {
        pending.contains(path)
    }
}

/// The full paths an effect writes, resolved against `root`: its own path,
/// and a move's target too.
pub open spec fn pending_of(root: Seq<char>, e: EffectView) -> Set<Seq<char>> {
    match e {
        EffectView::Move(from, to) => set![joined_path(root, from), joined_path(root, to)],
        _ => set![joined_path(root, effect_path(e))],
    }
}

/// Before carrying out `effect`, record the paths it writes as pending, so
/// that the watcher passes over the changes it makes.
pub fn begin_effect(pending: &mut PendingSet, root: &str, effect: &Effect)
    ensures
        final(pending)@ == old(pending)@.union(pending_of(root@, effect@)),
{
    let full = join_path(root, effect.path());
    pending.insert(full.as_str());
    match effect {
        Effect::Move { to, .. } => {
            let full_to = join_path(root, to.as_str());
            pending.insert(full_to.as_str());
        },
        _ => {},
    }
    assert(pending@ =~= old(pending)@.union(pending_of(root@, effect@)));
}

/// After carrying out `effect`: a success leaves the pending paths to the
/// watcher, which consumes them as it sees the changes; a failure forgets
/// them, so that the watcher does not pass over the path for ever.
pub fn settle_effect(pending: &mut PendingSet, root: &str, effect: &Effect, ok: bool)
    ensures
        ok ==> final(pending)@ == old(pending)@,
        !ok ==> final(pending)@ == old(pending)@.difference(pending_of(root@, effect@)),
{
    if ok {
        return;
    }
    let full = join_path(root, effect.path());
    pending.remove(full.as_str());
    match effect {
        Effect::Move { to, .. } => {
            let full_to = join_path(root, to.as_str());
            pending.remove(full_to.as_str());
        },
        _ => {},
    }
    assert(pending@ =~= old(pending)@.difference(pending_of(root@, effect@)));
}

} // verus!
