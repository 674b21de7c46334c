//! The `databases/` scope: data trees whose leaves are the members of sets.
use vstd::prelude::*;
use crate::dispatcher::Scope;
use crate::effector::{Effect, EffectView, effects_view};
use crate::strings::{concat, join_seq, join_tail, str_contains_char, strings_view, strs_view};
use crate::subsystems::logs::{log_path, LogsSubsystem};
use crate::subsystems::{FsEvent, FsEventKind, Subsystem};
use crate::trie::{lookup, Trie, TrieNode};

verus! {

/// The effects of an event in `databases/`: a new entry whose last segment
/// holds `∆` is a cross-reference and is logged; nothing else causes anything.
pub open spec fn database_effects(kind: FsEventKind, segs: Seq<Seq<char>>, stamp: Seq<char>) -> Seq<EffectView> {
    if segs.len() < 2 {
        Seq::empty()
    } else if kind == FsEventKind::Assert && segs.last().contains('∆') {
        seq![EffectView::Touch(log_path(stamp, "db xref "@ + join_seq(segs.skip(1), "/"@)))]
    } else {
        Seq::empty()
    }
}

/// The subsystem of the `databases/` scope.
pub struct DatabasesSubsystem;

impl DatabasesSubsystem {
    pub fn new() -> (s: DatabasesSubsystem) {
        DatabasesSubsystem
    }

    /// The effects of an event, with log entries stamped `stamp`.
    pub fn handle_at(&self, event: &FsEvent, stamp: &str) -> (r: Vec<Effect>)
        ensures
            effects_view(r@) == database_effects(event@.0, event@.1, stamp@),
    {
        let mut effects: Vec<Effect> = Vec::new();
        if event.segments.len() < 2 {
            assert(effects_view(effects@) =~= Seq::<EffectView>::empty());
            return effects;
        }
        let last = event.segments[event.segments.len() - 1].as_str();
        assert(strings_view(event.segments@).last() == last@);
        if event.kind == FsEventKind::Assert && str_contains_char(last, '∆') {
            let path_str = join_tail(event.segments.as_slice(), 1, "/");
            let msg = concat("db xref ", path_str.as_str());
            effects.push(LogsSubsystem::log_effect_at(stamp, msg.as_str()));
        }
        assert(effects_view(effects@) =~= database_effects(event@.0, event@.1, stamp@));
        effects
    }
}

impl Subsystem for DatabasesSubsystem {
    open spec fn spec_scope(&self) -> Scope {
        Scope::Databases
    }

    /// Its answers: what `handle_at` gives with the stamp of some moment.
    open spec fn answers(&self, event: (FsEventKind, Seq<Seq<char>>, Scope), trie: Trie, effects: Seq<EffectView>) -> bool {
        exists|stamp: Seq<char>| effects == #[trigger] database_effects(event.0, event.1, stamp)
    }

    fn scope(&self) -> (s: Scope) {
        Scope::Databases
    }

    /// The effects of `handle_at`, stamped with the current time.
    fn handle(&self, event: &FsEvent, trie: &Trie) -> (r: Vec<Effect>) {
        let stamp = crate::clock::utc_stamp();
        let r = self.handle_at(event, stamp.as_str());
        assert(effects_view(r@) == database_effects(event@.0, event@.1, stamp@));
        r
    }
}

/// The names of the file leaves below a node, depth first in name order;
/// directories contribute what is below them.
pub open spec fn leaf_names(n: TrieNode) -> Seq<Seq<char>>
    decreases n,
{
    leaf_names_of(n.children@)
}

/// The file leaves below each of the nodes `cs`, in order.
pub open spec fn leaf_names_of(cs: Seq<TrieNode>) -> Seq<Seq<char>>
    decreases cs,
{
    if cs.len() == 0 {
        Seq::empty()
    } else {
        let c = cs[cs.len() - 1];
        leaf_names_of(cs.subrange(0, cs.len() - 1)) + if c.is_file && c.children@.len() == 0 {
            seq![c.segment@]
        } else {
            leaf_names(c)
        }
    }
}

/// The names of the file leaves below `node`.
fn collect_leaves(node: &TrieNode) -> (r: Vec<String>)
    ensures
        strings_view(r@) == leaf_names(*node),
    decreases node,
{
    let mut results: Vec<String> = Vec::new();
    let mut i: usize = 0;
    while i < node.children.len()
        invariant
            i <= node.children@.len(),
            strings_view(results@) == leaf_names_of(node.children@.subrange(0, i as int)),
        decreases node.children@.len() - i,
    {
        let child = &node.children[i];
        assert(node.children@.subrange(0, i + 1).subrange(0, i as int) == node.children@.subrange(0, i as int));
        let ghost before = strings_view(results@);
        if child.is_file && child.children.len() == 0 {
            results.push(child.segment.clone());
            assert(strings_view(results@) =~= before.push(child.segment@));
        } else {
            let mut more = collect_leaves(child);
            let ghost m = strings_view(more@);
            results.append(&mut more);
            assert(strings_view(results@) =~= before + m);
        }
        i += 1;
    }
    assert(node.children@.subrange(0, node.children@.len() as int) == node.children@);
    results
}

/// The members of the set at `databases/{path}`: the names of the file
/// leaves below it, or nothing when there is no such node.
pub fn query_set(trie: &Trie, path_segments: &[&str]) -> (r: Vec<String>)
    ensures
        strings_view(r@) == match lookup(trie.root, seq!["databases"@] + strs_view(path_segments@)) {
            Some(n) => leaf_names(n),
            None => Seq::empty(),
        },
{
    let mut full: Vec<&str> = Vec::new();
    full.push("databases");
    let mut i: usize = 0;
    while i < path_segments.len()
        invariant
            i <= path_segments@.len(),
            strs_view(full@) == seq!["databases"@] + strs_view(path_segments@.take(i as int)),
        decreases path_segments@.len() - i,
    {
        let ghost before = full@;
        full.push(path_segments[i]);
        assert(full@ == before.push(path_segments@[i as int]));
        proof {
            crate::strings::lemma_strs_view_push(before, path_segments@[i as int]);
            crate::strings::lemma_strs_view_take(path_segments@, i as int);
        }
        assert(strs_view(full@) =~= seq!["databases"@] + strs_view(path_segments@.take(i + 1)));
        i += 1;
    }
    assert(path_segments@.take(path_segments@.len() as int) == path_segments@);
    match trie.get(full.as_slice()) {
        Some(node) => collect_leaves(node),
        None => {
            let r: Vec<String> = Vec::new();
            assert(strings_view(r@) =~= Seq::<Seq<char>>::empty());
            r
        },
    }
}

} // verus!
