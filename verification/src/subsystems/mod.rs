//! Subsystems: one per scope, each a reaction from an event to effects.
//! Subsystems never write; they answer with effects for the effector.
use vstd::prelude::*;
use crate::dispatcher::Scope;
use crate::effector::{Effect, EffectView, effects_view};
use crate::strings::{clone_strings, strings_view};
use crate::trie::Trie;

pub mod channels;
pub mod databases;
pub mod events;
pub mod jobs;
pub mod logs;
pub mod programs;
pub mod scheduler;
pub mod states;
pub mod subscriptions;
pub mod workers;

verus! {

/// The kind of a filesystem event.
#[derive(Debug, Clone, Copy, PartialEq, Eq, Structural)]
pub enum FsEventKind {
    /// A file or directory was created (touch, mkdir).
    Assert,
    /// A file or directory was deleted (rm).
    Retract,
    /// A file or directory was renamed or moved (mv).
    Transform,
}

impl FsEventKind {
    /// The kind's name, as it is displayed.
    pub fn name(&self) -> (r: &'static str)
        ensures
            r@ == match *self {
                FsEventKind::Assert => "Assert"@,
                FsEventKind::Retract => "Retract"@,
                FsEventKind::Transform => "Transform"@,
            },
    {
        match self {
            FsEventKind::Assert => "Assert",
            FsEventKind::Retract => "Retract",
            FsEventKind::Transform => "Transform",
        }
    }
}

/// A parsed and classified filesystem event.
#[derive(Debug)]
pub struct FsEvent {
    /// What happened.
    pub kind: FsEventKind,
    /// The path's segments, relative to the filesystem root.
    pub segments: Vec<String>,
    /// The scope the path is in.
    pub scope: Scope,
}

impl View for FsEvent {
    type V = (FsEventKind, Seq<Seq<char>>, Scope);

    open spec fn view(&self) -> (FsEventKind, Seq<Seq<char>>, Scope) {
        (self.kind, strings_view(self.segments@), self.scope)
    }
}

impl Clone for FsEvent {
    fn clone(&self) -> (r: Self)
        ensures
            r@ == self@,
    {
        FsEvent { kind: self.kind, segments: clone_strings(&self.segments), scope: self.scope }
    }
}

/// A subsystem: it handles the events of one scope and answers with effects.
pub trait Subsystem: Send + Sync {
    /// The scope the subsystem handles.
    spec fn spec_scope(&self) -> Scope;

    /// Whether `effects` is an answer the subsystem may give to `event` with
    /// the trie as `trie` (answers may depend on the clock).
    spec fn answers(&self, event: (FsEventKind, Seq<Seq<char>>, Scope), trie: Trie, effects: Seq<EffectView>) -> bool;

    /// The scope the subsystem handles.
    fn scope(&self) -> (s: Scope)
        ensures
            s == self.spec_scope();

    /// Handle an event, with `trie` the trie as read under its lock; the
    /// effects to carry out.
    fn handle(&self, event: &FsEvent, trie: &Trie) -> (r: Vec<Effect>)
        ensures
            self.answers(event@, *trie, effects_view(r@));
}

/// `Some(trie)` when `has`, else nothing: the trie a subsystem reads.
pub open spec fn trie_when(has: bool, trie: Trie) -> Option<Trie> {
    if has { Some(trie) } else { None }
}

/// The registered subsystems.
pub struct SubsystemRegistry {
    subsystems: Vec<Box<dyn Subsystem>>,
}

impl SubsystemRegistry {
    /// The scopes of the registered subsystems, in registration order.
    pub closed spec fn scopes(&self) -> Seq<Scope> {
        self.subsystems@.map_values(|s: Box<dyn Subsystem>| s.spec_scope())
    }

    /// No subsystem.
    pub fn new() -> (r: SubsystemRegistry)
        ensures
            r.scopes() == Seq::<Scope>::empty(),
    {
        let r = SubsystemRegistry { subsystems: Vec::new() };
        assert(r.scopes() =~= Seq::<Scope>::empty());
        r
    }

    /// Register a subsystem after the others: one scope more, and the scopes
    /// registered before keep their places. (That the new last scope is the
    /// subsystem's own is not stated: the sequence axioms do not reach the
    /// value of a boxed trait object.)
    pub fn register(&mut self, subsystem: Box<dyn Subsystem>)
        ensures
            final(self).scopes().len() == old(self).scopes().len() + 1,
            final(self).scopes().take(old(self).scopes().len() as int) == old(self).scopes(),
    {
        let ghost before = self.subsystems@;
        proof {
            vstd::seq::axiom_seq_push_len(before, subsystem);
            assert forall|i: int| 0 <= i < before.len() implies #[trigger] before.push(subsystem)[i] == before[i] by {
                vstd::seq::axiom_seq_push_index_different(before, subsystem, i);
            }
        }
        self.subsystems.push(subsystem);
        assert(self.scopes().take(before.len() as int) =~= old(self).scopes());
    }

    /// Whether `effects` is an answer the subsystem registered `i`-th may
    /// give to `event`.
    pub closed spec fn answer_of(&self, i: int, event: (FsEventKind, Seq<Seq<char>>, Scope), trie: Trie, effects: Seq<EffectView>) -> bool {
        self.subsystems@[i].answers(event, trie, effects)
    }

    /// Hand an event to every subsystem of its scope, in registration order;
    /// all their effects, in that order: the effects are the concatenation
    /// of one part per registered subsystem, an answer of the subsystem to
    /// the event where its scope is the event's, and nothing elsewhere. When
    /// no subsystem has the event's scope there is no effect.
    pub fn dispatch(&self, event: &FsEvent, trie: &Trie) -> (r: Vec<Effect>)
        ensures
            exists|parts: Seq<Seq<EffectView>>|
                #![trigger parts.flatten()]
                parts.len() == self.scopes().len() && effects_view(r@) == parts.flatten() && forall|i: int|
                    0 <= i < parts.len() ==> (if self.scopes()[i] == event.scope {
                        self.answer_of(i, event@, *trie, #[trigger] parts[i])
                    } else {
                        parts[i].len() == 0
                    }),
            !self.scopes().contains(event.scope) ==> r@.len() == 0,
    {
        let mut effects: Vec<Effect> = Vec::new();
        let ghost mut parts: Seq<Seq<EffectView>> = Seq::empty();
        let mut i: usize = 0;
        while i < self.subsystems.len()
            invariant
                i <= self.subsystems@.len(),
                parts.len() == i,
                effects_view(effects@) == parts.flatten(),
                forall|j: int|
                    0 <= j < i ==> (if (#[trigger] self.subsystems@[j]).spec_scope() == event.scope {
                        self.subsystems@[j].answers(event@, *trie, parts[j])
                    } else {
                        parts[j].len() == 0
                    }),
                (forall|j: int| 0 <= j < i ==> (#[trigger] self.subsystems@[j]).spec_scope() != event.scope) ==> effects@.len() == 0,
            decreases self.subsystems@.len() - i,
        {
            let ghost before = effects_view(effects@);
            if self.subsystems[i].scope() == event.scope {
                let mut more = self.subsystems[i].handle(event, trie);
                let ghost part = effects_view(more@);
                let ghost raw = effects@;
                let ghost raw_more = more@;
                effects.append(&mut more);
                proof {
                    assert(effects@ == raw + raw_more);
                    assert(effects_view(raw + raw_more) =~= effects_view(raw) + effects_view(raw_more));
                    parts.lemma_flatten_push(part);
                    parts = parts.push(part);
                }
            } else {
                proof {
                    parts.lemma_flatten_push(Seq::<EffectView>::empty());
                    assert(parts.flatten() + Seq::<EffectView>::empty() =~= parts.flatten());
                    parts = parts.push(Seq::<EffectView>::empty());
                }
            }
            i += 1;
        }
        proof {
            assert forall|j: int| 0 <= j < parts.len() implies (if self.scopes()[j] == event.scope {
                self.answer_of(j, event@, *trie, #[trigger] parts[j])
            } else {
                parts[j].len() == 0
            }) by {
                assert(self.scopes()[j] == self.subsystems@[j].spec_scope());
            }
            if !self.scopes().contains(event.scope) {
                assert forall|j: int| 0 <= j < self.subsystems@.len() implies (#[trigger] self.subsystems@[j]).spec_scope() != event.scope by {
                    assert(self.scopes()[j] == self.subsystems@[j].spec_scope());
                }
            }
        }
        effects
    }

    /// The number of registered subsystems.
    pub fn len(&self) -> (n: usize)
        ensures
            n == self.scopes().len(),
    {
        self.subsystems.len()
    }

    /// Whether no subsystem is registered.
    pub fn is_empty(&self) -> (r: bool)
        ensures
            r == (self.scopes().len() == 0),
    {
        self.subsystems.len() == 0
    }
}

impl Default for SubsystemRegistry {
    fn default() -> (r: Self)
        ensures
            r.scopes() == Seq::<Scope>::empty(),
    {
        SubsystemRegistry::new()
    }
}

/// Whether segment `i` of `segs` exists and reads `w`.
pub open spec fn seg_is(segs: Seq<Seq<char>>, i: int, w: Seq<char>) -> bool {
    0 <= i < segs.len() && segs[i] == w
}

/// Whether segment `i` of the event exists and reads `w`.
pub fn segment_is(segments: &Vec<String>, i: usize, w: &str) -> (r: bool)
    ensures
        r == seg_is(strings_view(segments@), i as int, w@),
{
    if i < segments.len() {
        str_eq_string(&segments[i], w)
    } else {
        false
    }
}

fn str_eq_string(a: &String, b: &str) -> (r: bool)
    ensures
        r == (a@ == b@),
{
    crate::strings::str_eq(a.as_str(), b)
}

/// Whether some segment reads `w`.
pub fn any_segment_is(segments: &Vec<String>, w: &str) -> (r: bool)
    ensures
        r == strings_view(segments@).contains(w@),
{
    let mut i: usize = 0;
    while i < segments.len()
        invariant
            i <= segments@.len(),
            forall|j: int| 0 <= j < i ==> (#[trigger] segments@[j])@ != w@,
        decreases segments@.len() - i,
    {
        if str_eq_string(&segments[i], w) {
            assert(strings_view(segments@)[i as int] == w@);
            return true;
        }
        i += 1;
    }
    proof {
        if strings_view(segments@).contains(w@) {
            let k = choose|k: int| 0 <= k < strings_view(segments@).len() && strings_view(segments@)[k] == w@;
            assert(segments@[k]@ == w@);
        }
    }
    false
}

/// A leaf path below an action node, as a path: its names joined by `/`.
pub open spec fn leaf_target(p: Seq<Seq<char>>) -> Seq<char> {
    crate::strings::join_seq(p, seq!['/'])
}

/// One effect per leaf below `n`, in order: removals when `remove`, else
/// touches, each on the leaf's path relative to `n`.
pub open spec fn leaf_effects(n: crate::trie::TrieNode, remove: bool) -> Seq<EffectView> {
    let ls = crate::trie::leaves(n, Seq::empty());
    Seq::new(ls.len(), |i: int| if remove { EffectView::Remove(leaf_target(ls[i])) } else { EffectView::Touch(leaf_target(ls[i])) })
}

/// Append one effect per leaf below `node`: a removal when `remove`, else a touch.
pub fn push_leaf_effects(node: &crate::trie::TrieNode, remove: bool, effects: &mut Vec<Effect>)
    ensures
        effects_view(final(effects)@) == effects_view(old(effects)@) + leaf_effects(*node, remove),
{
    let targets = node.leaf_paths();
    let ghost ls = crate::trie::leaves(*node, Seq::empty());
    let ghost start = effects_view(effects@);
    assert(strings_view(targets@).len() == targets@.len());
    assert(leaf_effects(*node, remove).len() == ls.len());
    let mut i: usize = 0;
    while i < targets.len()
        invariant
            i <= targets@.len(),
            ls == crate::trie::leaves(*node, Seq::empty()),
            targets@.len() == ls.len(),
            leaf_effects(*node, remove).len() == ls.len(),
            strings_view(targets@) == ls.map_values(|p: Seq<Seq<char>>| crate::strings::join_seq(p, seq!['/'])),
            effects_view(effects@) == start + leaf_effects(*node, remove).take(i as int),
        decreases targets@.len() - i,
    {
        let ghost before = effects_view(effects@);
        assert(strings_view(targets@)[i as int] == targets@[i as int]@);
        assert(targets@[i as int]@ == leaf_target(ls[i as int]));
        let t = targets[i].clone();
        let e = if remove {
            Effect::Remove { path: t }
        } else {
            Effect::Touch { path: t }
        };
        assert(leaf_effects(*node, remove)[i as int] == (if remove {
            EffectView::Remove(leaf_target(ls[i as int]))
        } else {
            EffectView::Touch(leaf_target(ls[i as int]))
        }));
        assert(e@ == leaf_effects(*node, remove)[i as int]);
        let ghost raw = effects@;
        effects.push(e);
        assert(effects@ == raw.push(e));
        assert(effects_view(effects@) =~= before.push(leaf_effects(*node, remove)[i as int]));
        assert(leaf_effects(*node, remove).take(i + 1) =~= leaf_effects(*node, remove).take(i as int).push(leaf_effects(*node, remove)[i as int]));
        i += 1;
    }
    assert(leaf_effects(*node, remove).take(targets@.len() as int) == leaf_effects(*node, remove));
}

} // verus!
