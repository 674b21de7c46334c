//! The in-memory trie that indexes the zero-byte filesystem.
//!
//! Each node is one path segment; its children are kept ordered by name
//! (code-point order, the order of the filesystem walk) with no name twice.
use vstd::prelude::*;
use crate::alphabet::Alphabet;
use crate::parser::{classify, classify_segment, components, path_components, NodeClass, NodeClassView};
use crate::strings::{clone_strings, is_prefix, seq_lt, str_eq, str_lt, str_starts_with, starts_with_char, strings_view, strs_view};

verus! {

/// A node of the trie: one file or directory of the filesystem.
#[derive(Debug)]
pub struct TrieNode {
    /// This segment's raw name.
    pub segment: String,
    /// Classification of this segment.
    pub class: NodeClass,
    /// Children, ordered by segment name.
    pub children: Vec<TrieNode>,
    /// Whether this node is a file (leaf) rather than a directory (scope).
    pub is_file: bool,
    /// Modification time in nanoseconds since the Unix epoch, when known.
    pub mtime: Option<u64>,
}

// ---------------------------------------------------------------------------
// The model: lookup by path
// ---------------------------------------------------------------------------

/// Some child in `cs` is named `k`.
pub open spec fn has_key(cs: Seq<TrieNode>, k: Seq<char>) -> bool {
    exists|i: int| 0 <= i < cs.len() && (#[trigger] cs[i]).segment@ == k
}

/// `i` is the position of the first child named `k`.
pub open spec fn first_with_key(cs: Seq<TrieNode>, k: Seq<char>, i: int) -> bool {
    &&& 0 <= i < cs.len()
    &&& cs[i].segment@ == k
    &&& forall|j: int| 0 <= j < i ==> (#[trigger] cs[j]).segment@ != k
}

/// The position of the first child named `k` (meaningful when `has_key`).
pub open spec fn key_index(cs: Seq<TrieNode>, k: Seq<char>) -> int {
    choose|i: int| first_with_key(cs, k, i)
}

/// The node reached from `n` by following the segment names `p`.
pub open spec fn lookup(n: TrieNode, p: Seq<Seq<char>>) -> Option<TrieNode>
    decreases p.len(),
{
    if p.len() == 0 {
        Some(n)
    } else if has_key(n.children@, p[0]) {
        lookup(n.children@[key_index(n.children@, p[0])], p.drop_first())
    } else {
        None
    }
}

/// Children are in strictly increasing name order (so no name appears twice).
pub open spec fn sorted_keys(cs: Seq<TrieNode>) -> bool {
    forall|i: int, j: int| 0 <= i < j < cs.len() ==> seq_lt(#[trigger] cs[i].segment@, #[trigger] cs[j].segment@)
}

impl TrieNode {
    /// Well-formed: at every node the children are ordered by name.
    pub open spec fn wf(self) -> bool
        decreases self,
    {
        &&& sorted_keys(self.children@)
        &&& forall|i: int| 0 <= i < self.children@.len() ==> (#[trigger] self.children@[i]).wf()
    }
}

/// Two trees are copies of each other.
pub open spec fn tree_eq(a: TrieNode, b: TrieNode) -> bool
    decreases a,
{
    &&& same_attrs(a, b)
    &&& a.children@.len() == b.children@.len()
    &&& forall|i: int| 0 <= i < a.children@.len() ==> tree_eq(#[trigger] a.children@[i], b.children@[i])
}

/// Two nodes carry the same name, class, kind and time.
pub open spec fn same_attrs(a: TrieNode, b: TrieNode) -> bool {
    &&& a.segment == b.segment
    &&& a.class == b.class
    &&& a.is_file == b.is_file
    &&& a.mtime == b.mtime
}

pub proof fn lemma_first_unique(cs: Seq<TrieNode>, k: Seq<char>, i: int, j: int)
    requires
        first_with_key(cs, k, i),
        first_with_key(cs, k, j),
    ensures
        i == j,
{
    if i < j {
        assert(cs[i].segment@ != k);
    } else if j < i {
        assert(cs[j].segment@ != k);
    }
}

/// When a child named `k` exists, `key_index` is the first of them.
pub proof fn lemma_key_index(cs: Seq<TrieNode>, k: Seq<char>)
    requires
        has_key(cs, k),
    ensures
        first_with_key(cs, k, key_index(cs, k)),
    decreases cs.len(),
{
    let pre = cs.drop_last();
    if has_key(pre, k) {
        lemma_key_index(pre, k);
        let i = key_index(pre, k);
        assert(pre[i] == cs[i]);
        assert forall|j: int| 0 <= j < i implies (#[trigger] cs[j]).segment@ != k by {
            assert(pre[j] == cs[j]);
        }
        assert(first_with_key(cs, k, i));
    } else {
        let w = choose|w: int| 0 <= w < cs.len() && (#[trigger] cs[w]).segment@ == k;
        if w < cs.len() - 1 {
            assert(pre[w] == cs[w]);
        }
        assert forall|j: int| 0 <= j < cs.len() - 1 implies (#[trigger] cs[j]).segment@ != k by {
            assert(pre[j] == cs[j]);
        }
        assert(first_with_key(cs, k, cs.len() - 1));
    }
}

/// A known first match is `key_index`.
pub proof fn lemma_key_index_is(cs: Seq<TrieNode>, k: Seq<char>, i: int)
    requires
        first_with_key(cs, k, i),
    ensures
        has_key(cs, k),
        key_index(cs, k) == i,
{
    assert(cs[i].segment@ == k);
    lemma_key_index(cs, k);
    lemma_first_unique(cs, k, i, key_index(cs, k));
}

/// Looking a path up one level down.
pub proof fn lemma_lookup_step(n: TrieNode, p: Seq<Seq<char>>)
    requires
        p.len() > 0,
    ensures
        lookup(n, p) == if has_key(n.children@, p[0]) {
            lookup(n.children@[key_index(n.children@, p[0])], p.drop_first())
        } else {
            None
        },
{
}

impl Clone for TrieNode {
    /// A deep copy: the same names, classes, kinds and times at every node.
    fn clone(&self) -> (r: Self)
        ensures
            tree_eq(r, *self),
        decreases self,
    {
        let mut children: Vec<TrieNode> = Vec::new();
        let mut i: usize = 0;
        while i < self.children.len()
            invariant
                i <= self.children@.len(),
                children@.len() == i,
                forall|j: int| 0 <= j < i ==> tree_eq(#[trigger] children@[j], self.children@[j]),
            decreases self.children@.len() - i,
        {
            let c = self.children[i].clone();
            children.push(c);
            i += 1;
        }
        let class = self.class.clone();
        TrieNode {
            segment: self.segment.clone(),
            class,
            children,
            is_file: self.is_file,
            mtime: self.mtime,
        }
    }
}

// ---------------------------------------------------------------------------
// Insertion: what an insert of a path does to the lookups
// ---------------------------------------------------------------------------

/// The attributes of the node placed at the end of an inserted path: its
/// name, the requested kind, its old class (or the class of its name if it is
/// new), and its time (the given one for a file when one is given, else the
/// old one, else none).
pub open spec fn placed(
    prev: Option<TrieNode>,
    m: TrieNode,
    name: Seq<char>,
    is_file: bool,
    doors: Set<char>,
    set_mtime: Option<Option<u64>>,
) -> bool {
    &&& m.segment@ == name
    &&& m.is_file == is_file
    &&& (prev matches Some(o) ==> m.class == o.class)
    &&& (prev is None ==> m.class@ == classify(name, doors))
    &&& m.mtime == if is_file && set_mtime is Some {
        set_mtime->0
    } else {
        match prev {
            Some(o) => o.mtime,
            None => None,
        }
    }
}

/// A directory node created on the way to an inserted path.
pub open spec fn fresh_dir(m: TrieNode, name: Seq<char>, doors: Set<char>) -> bool {
    &&& m.segment@ == name
    &&& !m.is_file
    &&& m.class@ == classify(name, doors)
    &&& m.mtime is None
}

/// `new` is `old` with the path `p` inserted: exactly the prefixes of `p` are
/// added, every other node keeps its attributes, the end node is placed as
/// requested and the created intermediate nodes are plain directories.
pub open spec fn inserted(
    old: TrieNode,
    new: TrieNode,
    p: Seq<Seq<char>>,
    is_file: bool,
    doors: Set<char>,
    set_mtime: Option<Option<u64>>,
) -> bool {
    &&& forall|q: Seq<Seq<char>>|
        #![trigger lookup(new, q)]
        #![trigger lookup(old, q)]
        (lookup(new, q) is Some) <==> (lookup(old, q) is Some || is_prefix(q, p))
    &&& forall|q: Seq<Seq<char>>|
        #![trigger lookup(new, q)]
        #![trigger lookup(old, q)]
        lookup(old, q) is Some && q != p ==> same_attrs(lookup(new, q)->0, lookup(old, q)->0)
    &&& p.len() > 0 ==> placed(lookup(old, p), lookup(new, p)->0, p.last(), is_file, doors, set_mtime)
    &&& forall|q: Seq<Seq<char>>|
        #![trigger lookup(new, q)]
        is_prefix(q, p) && q.len() < p.len() && lookup(old, q) is None ==> fresh_dir(
            lookup(new, q)->0,
            q.last(),
            doors,
        )
}

proof fn lemma_update_keys(cs: Seq<TrieNode>, j: int, c2: TrieNode, k2: Seq<char>)
    requires
        first_with_key(cs, cs[j].segment@, j),
        c2.segment@ == cs[j].segment@,
    ensures
        has_key(cs.update(j, c2), k2) == has_key(cs, k2),
        has_key(cs, k2) ==> key_index(cs.update(j, c2), k2) == key_index(cs, k2),
        has_key(cs, k2) && k2 != cs[j].segment@ ==> cs.update(j, c2)[key_index(cs, k2)]
            == cs[key_index(cs, k2)],
{
    let cs2 = cs.update(j, c2);
    let k = cs[j].segment@;
    if k2 == k {
        assert forall|l: int| 0 <= l < j implies (#[trigger] cs2[l]).segment@ != k by {
            assert(cs[l].segment@ != k);
        }
        assert(first_with_key(cs2, k, j));
        lemma_key_index_is(cs2, k, j);
        lemma_key_index_is(cs, k, j);
    } else {
        if has_key(cs, k2) {
            lemma_key_index(cs, k2);
            let i = key_index(cs, k2);
            assert(i != j);
            assert forall|l: int| 0 <= l < i implies (#[trigger] cs2[l]).segment@ != k2 by {
                if l != j {
                    assert(cs[l].segment@ != k2);
                }
            }
            assert(first_with_key(cs2, k2, i));
            lemma_key_index_is(cs2, k2, i);
        }
        if has_key(cs2, k2) {
            let w = choose|w: int| 0 <= w < cs2.len() && (#[trigger] cs2[w]).segment@ == k2;
            assert(w != j);
            assert(cs[w].segment@ == k2);
        }
    }
}

proof fn lemma_insert_keys(cs: Seq<TrieNode>, pos: int, c: TrieNode, k2: Seq<char>)
    requires
        0 <= pos <= cs.len(),
        !has_key(cs, c.segment@),
    ensures
        has_key(cs.insert(pos, c), c.segment@),
        key_index(cs.insert(pos, c), c.segment@) == pos,
        k2 != c.segment@ ==> has_key(cs.insert(pos, c), k2) == has_key(cs, k2),
        k2 != c.segment@ && has_key(cs, k2) ==> cs.insert(pos, c)[key_index(cs.insert(pos, c), k2)]
            == cs[key_index(cs, k2)],
{
    let cs2 = cs.insert(pos, c);
    let k = c.segment@;
    assert forall|l: int| 0 <= l < pos implies (#[trigger] cs2[l]).segment@ != k by {
        assert(cs2[l] == cs[l]);
    }
    assert(first_with_key(cs2, k, pos));
    lemma_key_index_is(cs2, k, pos);
    if k2 != k {
        if has_key(cs, k2) {
            lemma_key_index(cs, k2);
            let i = key_index(cs, k2);
            let i2 = if i < pos { i } else { i + 1 };
            assert(cs2[i2] == cs[i]);
            assert forall|l: int| 0 <= l < i2 implies (#[trigger] cs2[l]).segment@ != k2 by {
                if l < pos {
                    assert(cs2[l] == cs[l]);
                } else if l > pos {
                    assert(cs2[l] == cs[l - 1]);
                }
            }
            assert(first_with_key(cs2, k2, i2));
            lemma_key_index_is(cs2, k2, i2);
        }
        if has_key(cs2, k2) {
            let w = choose|w: int| 0 <= w < cs2.len() && (#[trigger] cs2[w]).segment@ == k2;
            assert(w != pos);
            if w < pos {
                assert(cs[w].segment@ == k2);
            } else {
                assert(cs[w - 1].segment@ == k2);
            }
        }
    }
}

/// A node without children has only itself to look up.
proof fn lemma_lookup_leaf(n: TrieNode, q: Seq<Seq<char>>)
    requires
        n.children@.len() == 0,
    ensures
        lookup(n, q) is Some <==> q.len() == 0,
{
}

/// Nodes with the same children look up the same below themselves.
proof fn lemma_lookup_same_children(a: TrieNode, b: TrieNode, q: Seq<Seq<char>>)
    requires
        a.children@ == b.children@,
        q.len() > 0,
    ensures
        lookup(a, q) == lookup(b, q),
{
}

proof fn lemma_prefix_step(q: Seq<Seq<char>>, p: Seq<Seq<char>>)
    requires
        q.len() > 0,
        p.len() > 0,
    ensures
        is_prefix(q, p) <==> (q[0] == p[0] && is_prefix(q.drop_first(), p.drop_first())),
{
    if is_prefix(q, p) {
        assert(p.subrange(0, q.len() as int)[0] == q[0]);
        assert(p.drop_first().subrange(0, q.len() - 1) =~= q.drop_first());
    }
    if q[0] == p[0] && is_prefix(q.drop_first(), p.drop_first()) {
        assert forall|i: int| 0 <= i < q.len() implies p.subrange(0, q.len() as int)[i] == q[i] by {
            if i > 0 {
                assert(p.drop_first().subrange(0, q.len() - 1)[i - 1] == q.drop_first()[i - 1]);
            }
        }
        assert(p.subrange(0, q.len() as int) =~= q);
    }
}

proof fn lemma_cons_eq(q: Seq<Seq<char>>, p: Seq<Seq<char>>)
    requires
        q.len() > 0,
        p.len() > 0,
        q[0] == p[0],
        q.drop_first() == p.drop_first(),
    ensures
        q == p,
{
    assert(q.drop_first().len() == q.len() - 1);
    assert(p.drop_first().len() == p.len() - 1);
    assert(q.len() == p.len());
    assert forall|i: int| 0 <= i < q.len() implies q[i] == p[i] by {
        if i > 0 {
            assert(q.drop_first()[i - 1] == q[i]);
            assert(p.drop_first()[i - 1] == p[i]);
        }
    }
    assert(q =~= p);
}

/// Inserting below an existing child lifts to the parent.
proof fn lemma_insert_existing(
    old: TrieNode,
    new: TrieNode,
    j: int,
    c2: TrieNode,
    p: Seq<Seq<char>>,
    is_file: bool,
    doors: Set<char>,
    sm: Option<Option<u64>>,
)
    requires
        p.len() > 0,
        first_with_key(old.children@, p[0], j),
        new.children@ == old.children@.update(j, c2),
        same_attrs(new, old),
        c2.segment == old.children@[j].segment,
        p.len() == 1 ==> {
            &&& c2.children@ == old.children@[j].children@
            &&& c2.class == old.children@[j].class
            &&& c2.is_file == is_file
            &&& c2.mtime == if is_file && sm is Some { sm->0 } else { old.children@[j].mtime }
        },
        p.len() > 1 ==> inserted(old.children@[j], c2, p.drop_first(), is_file, doors, sm),
    ensures
        inserted(old, new, p, is_file, doors, sm),
{
    let cs = old.children@;
    let c1 = cs[j];
    let k = p[0];
    let rest = p.drop_first();
    assert forall|q: Seq<Seq<char>>|
        #![trigger lookup(new, q)]
        #![trigger lookup(old, q)]
        ((lookup(new, q) is Some) <==> (lookup(old, q) is Some || is_prefix(q, p))) && (lookup(
            old,
            q,
        ) is Some && q != p ==> same_attrs(lookup(new, q)->0, lookup(old, q)->0)) && (is_prefix(q, p)
            && q.len() < p.len() && lookup(old, q) is None ==> fresh_dir(lookup(new, q)->0, q.last(), doors)) by {
        if q.len() > 0 {
            lemma_prefix_step(q, p);
            lemma_update_keys(cs, j, c2, q[0]);
            if q[0] == k {
                lemma_key_index_is(cs, k, j);
                assert(lookup(new, q) == lookup(c2, q.drop_first()));
                assert(lookup(old, q) == lookup(c1, q.drop_first()));
                if p.len() == 1 {
                    if q.drop_first().len() > 0 {
                        lemma_lookup_same_children(c2, c1, q.drop_first());
                        assert(!is_prefix(q.drop_first(), rest));
                    } else {
                        assert(q.len() == 1 && p.len() == 1 && q[0] == p[0]);
                        assert(q =~= p);
                    }
                } else {
                    if q.drop_first() == rest {
                        lemma_cons_eq(q, p);
                    }
                    if q == p {
                        assert(q.drop_first() == rest);
                    }
                }
            } else {
                if has_key(cs, q[0]) {
                    lemma_key_index(cs, q[0]);
                }
            }
        }
    }
    if p.len() == 1 {
        lemma_update_keys(cs, j, c2, k);
        lemma_key_index_is(cs, k, j);
        assert(p.drop_first().len() == 0);
        assert(lookup(new, p) == Some(c2));
        assert(lookup(old, p) == Some(c1));
    } else {
        lemma_update_keys(cs, j, c2, k);
        lemma_key_index_is(cs, k, j);
        assert(lookup(new, p) == lookup(c2, rest));
        assert(lookup(old, p) == lookup(c1, rest));
        assert(rest.last() == p.last());
    }
}

/// Inserting below a newly created child lifts to the parent.
proof fn lemma_insert_new(
    old: TrieNode,
    new: TrieNode,
    pos: int,
    c1: TrieNode,
    c2: TrieNode,
    p: Seq<Seq<char>>,
    is_file: bool,
    doors: Set<char>,
    sm: Option<Option<u64>>,
)
    requires
        p.len() > 0,
        0 <= pos <= old.children@.len(),
        !has_key(old.children@, p[0]),
        new.children@ == old.children@.insert(pos, c2),
        same_attrs(new, old),
        c1.children@.len() == 0,
        c2.segment == c1.segment,
        c1.segment@ == p[0],
        c1.class@ == classify(p[0], doors),
        c1.mtime is None,
        p.len() == 1 ==> {
            &&& c2.children@.len() == 0
            &&& c2.class == c1.class
            &&& c2.is_file == is_file
            &&& c2.mtime == if is_file && sm is Some { sm->0 } else { None }
        },
        p.len() > 1 ==> !c1.is_file && inserted(c1, c2, p.drop_first(), is_file, doors, sm),
    ensures
        inserted(old, new, p, is_file, doors, sm),
{
    let cs = old.children@;
    let k = p[0];
    let rest = p.drop_first();
    assert forall|q: Seq<Seq<char>>|
        #![trigger lookup(new, q)]
        #![trigger lookup(old, q)]
        ((lookup(new, q) is Some) <==> (lookup(old, q) is Some || is_prefix(q, p))) && (lookup(
            old,
            q,
        ) is Some && q != p ==> same_attrs(lookup(new, q)->0, lookup(old, q)->0)) && (is_prefix(q, p)
            && q.len() < p.len() && lookup(old, q) is None ==> fresh_dir(lookup(new, q)->0, q.last(), doors)) by {
        if q.len() > 0 {
            lemma_prefix_step(q, p);
            lemma_insert_keys(cs, pos, c2, q[0]);
            if q[0] == k {
                assert(lookup(new, q) == lookup(c2, q.drop_first()));
                assert(lookup(old, q) is None);
                if p.len() == 1 {
                    if q.drop_first().len() > 0 {
                        lemma_lookup_leaf(c2, q.drop_first());
                        assert(!is_prefix(q.drop_first(), rest));
                    } else {
                        assert(q.len() == 1 && q[0] == p[0]);
                        assert(q =~= p);
                        assert(p.subrange(0, p.len() as int) =~= p);
                        assert(is_prefix(q, p));
                    }
                } else {
                    lemma_lookup_leaf(c1, q.drop_first());
                    if q.drop_first().len() == 0 {
                        assert(lookup(c1, q.drop_first()) == Some(c1));
                        assert(q.last() == k);
                        assert(rest.subrange(0, 0) =~= q.drop_first());
                        assert(is_prefix(q, p));
                    }
                }
            } else {
                if has_key(cs, q[0]) {
                    lemma_key_index(cs, q[0]);
                }
            }
        }
    }
    lemma_insert_keys(cs, pos, c2, k);
    if p.len() == 1 {
        assert(lookup(new, p) == Some(c2));
    } else {
        assert(lookup(new, p) == lookup(c2, rest));
        lemma_lookup_leaf(c1, rest);
        assert(rest.last() == p.last());
    }
}

/// Inserting a name at its ordered position keeps the children ordered.
proof fn lemma_insert_sorted(cs: Seq<TrieNode>, pos: int, c: TrieNode)
    requires
        sorted_keys(cs),
        !has_key(cs, c.segment@),
        0 <= pos <= cs.len(),
        forall|i: int| 0 <= i < pos ==> !seq_lt(c.segment@, #[trigger] cs[i].segment@),
        pos < cs.len() ==> seq_lt(c.segment@, cs[pos].segment@),
    ensures
        sorted_keys(cs.insert(pos, c)),
{
    let cs2 = cs.insert(pos, c);
    let k = c.segment@;
    assert forall|i: int| 0 <= i < pos implies seq_lt(#[trigger] cs[i].segment@, k) by {
        crate::strings::lemma_seq_lt_total(cs[i].segment@, k);
    }
    assert forall|i: int| pos <= i < cs.len() implies seq_lt(k, #[trigger] cs[i].segment@) by {
        if i > pos {
            crate::strings::lemma_seq_lt_transitive(k, cs[pos].segment@, cs[i].segment@);
        }
    }
    assert forall|a: int, b: int| 0 <= a < b < cs2.len() implies seq_lt(
        #[trigger] cs2[a].segment@,
        #[trigger] cs2[b].segment@,
    ) by {
        if a < pos && b < pos {
            assert(cs2[a] == cs[a] && cs2[b] == cs[b]);
        } else if a < pos && b == pos {
            assert(cs2[a] == cs[a]);
        } else if a < pos {
            assert(cs2[a] == cs[a] && cs2[b] == cs[b - 1]);
            crate::strings::lemma_seq_lt_transitive(cs[a].segment@, k, cs[b - 1].segment@);
        } else if a == pos {
            assert(cs2[b] == cs[b - 1]);
        } else {
            assert(cs2[a] == cs[a - 1] && cs2[b] == cs[b - 1]);
        }
    }
}

/// The ordered position for a new child named `key`: before the first child
/// whose name comes after it.
fn insert_position(children: &Vec<TrieNode>, key: &str) -> (pos: usize)
    ensures
        pos <= children@.len(),
        forall|i: int| 0 <= i < pos ==> !seq_lt(key@, #[trigger] children@[i].segment@),
        pos < children@.len() ==> seq_lt(key@, children@[pos as int].segment@),
{
    let mut i: usize = 0;
    while i < children.len()
        invariant
            i <= children@.len(),
            forall|j: int| 0 <= j < i ==> !seq_lt(key@, #[trigger] children@[j].segment@),
        decreases children@.len() - i,
    {
        if str_lt(key, children[i].segment.as_str()) {
            return i;
        }
        i += 1;
    }
    i
}

/// The segment names from position `i` on.
pub open spec fn path_from(segs: Seq<String>, i: int) -> Seq<Seq<char>> {
    strings_view(segs).skip(i)
}

/// Insert the path `segs[i..]` below `node`; `set_mtime` is the time to give
/// the end node when it is a file (`None`: leave times alone).
fn insert_below(
    node: &mut TrieNode,
    segs: &[String],
    i: usize,
    is_file: bool,
    set_mtime: Option<Option<u64>>,
    alphabet: &Alphabet,
)
    requires
        i < segs@.len(),
    ensures
        inserted(*old(node), *final(node), path_from(segs@, i as int), is_file, alphabet@, set_mtime),
        old(node).wf() ==> final(node).wf(),
    decreases segs@.len() - i,
{
    let ghost p = path_from(segs@, i as int);
    let ghost old_node = *node;
    assert(p[0] == segs@[i as int]@);
    assert(p.drop_first() == path_from(segs@, i + 1));
    let last = i == segs.len() - 1;
    let key = segs[i].as_str();
    match find_child(&node.children, key) {
        Some(j) => {
            let ghost cs = node.children@;
            let mut child = node.children.remove(j);
            assert(child == cs[j as int]);
            let ghost c1 = child;
            if last {
                child.is_file = is_file;
                if is_file {
                    if let Some(m) = set_mtime {
                        child.mtime = m;
                    }
                }
            } else {
                insert_below(&mut child, segs, i + 1, is_file, set_mtime, alphabet);
                assert(lookup(c1, Seq::empty()) == Some(c1));
                assert(lookup(child, Seq::empty()) == Some(child));
            }
            let ghost c2 = child;
            node.children.insert(j, child);
            assert(node.children@ =~= cs.update(j as int, c2));
            proof {
                lemma_insert_existing(old_node, *node, j as int, c2, p, is_file, alphabet@, set_mtime);
                if old_node.wf() {
                    assert(c1.wf());
                    if last {
                        assert(c2.wf());
                    }
                    assert forall|a: int, b: int| 0 <= a < b < node.children@.len() implies seq_lt(
                        #[trigger] node.children@[a].segment@,
                        #[trigger] node.children@[b].segment@,
                    ) by {
                        assert(cs[a].segment@ == node.children@[a].segment@);
                        assert(cs[b].segment@ == node.children@[b].segment@);
                    }
                    assert forall|a: int| 0 <= a < node.children@.len() implies (
                    #[trigger] node.children@[a]).wf() by {
                        if a != j {
                            assert(node.children@[a] == cs[a]);
                        }
                    }
                }
            }
        },
        None => {
            let class = classify_segment(key, alphabet);
            let mut child = TrieNode::new(segs[i].clone(), class, last && is_file);
            let ghost c1 = child;
            if last {
                if is_file {
                    if let Some(m) = set_mtime {
                        child.mtime = m;
                    }
                }
            } else {
                insert_below(&mut child, segs, i + 1, is_file, set_mtime, alphabet);
                assert(lookup(c1, Seq::empty()) == Some(c1));
                assert(lookup(child, Seq::empty()) == Some(child));
            }
            let ghost c2 = child;
            let pos = insert_position(&node.children, key);
            let ghost cs = node.children@;
            node.children.insert(pos, child);
            proof {
                lemma_insert_new(old_node, *node, pos as int, c1, c2, p, is_file, alphabet@, set_mtime);
                if old_node.wf() {
                    lemma_insert_sorted(cs, pos as int, c2);
                    assert(c1.wf());
                    assert(c2.wf());
                    assert forall|a: int| 0 <= a < node.children@.len() implies (
                    #[trigger] node.children@[a]).wf() by {
                        if a < pos {
                            assert(node.children@[a] == cs[a]);
                        } else if a > pos {
                            assert(node.children@[a] == cs[a - 1]);
                        }
                    }
                }
            }
        },
    }
}

// ---------------------------------------------------------------------------
// Removal
// ---------------------------------------------------------------------------

/// `cs` without the children named `k`.
pub open spec fn without_key(cs: Seq<TrieNode>, k: Seq<char>) -> Seq<TrieNode>
    decreases cs.len(),
{
    if cs.len() == 0 {
        cs
    } else {
        let r = without_key(cs.drop_last(), k);
        if cs.last().segment@ == k { r } else { r.push(cs.last()) }
    }
}

/// `new` is `old` with the subtree at `p` (and everything below it) removed;
/// every other node is untouched.
pub open spec fn removed(old: TrieNode, new: TrieNode, p: Seq<Seq<char>>) -> bool {
    &&& forall|q: Seq<Seq<char>>|
        #![trigger lookup(new, q)]
        #![trigger lookup(old, q)]
        (lookup(new, q) is Some) <==> (lookup(old, q) is Some && !is_prefix(p, q))
    &&& forall|q: Seq<Seq<char>>|
        #![trigger lookup(new, q)]
        lookup(new, q) is Some ==> same_attrs(lookup(new, q)->0, lookup(old, q)->0)
}

proof fn lemma_push_keys(s: Seq<TrieNode>, x: TrieNode, k2: Seq<char>)
    ensures
        has_key(s.push(x), k2) == (has_key(s, k2) || x.segment@ == k2),
        has_key(s, k2) ==> key_index(s.push(x), k2) == key_index(s, k2),
        !has_key(s, k2) && x.segment@ == k2 ==> key_index(s.push(x), k2) == s.len(),
{
    let t = s.push(x);
    if has_key(s, k2) {
        lemma_key_index(s, k2);
        let i = key_index(s, k2);
        assert(t[i] == s[i]);
        assert forall|l: int| 0 <= l < i implies (#[trigger] t[l]).segment@ != k2 by {
            assert(t[l] == s[l]);
        }
        assert(first_with_key(t, k2, i));
        lemma_key_index_is(t, k2, i);
    } else if x.segment@ == k2 {
        assert forall|l: int| 0 <= l < s.len() implies (#[trigger] t[l]).segment@ != k2 by {
            assert(t[l] == s[l]);
        }
        assert(first_with_key(t, k2, s.len() as int));
        lemma_key_index_is(t, k2, s.len() as int);
    } else {
        if has_key(t, k2) {
            let w = choose|w: int| 0 <= w < t.len() && (#[trigger] t[w]).segment@ == k2;
            assert(t[w] == s[w]);
        }
    }
}

proof fn lemma_without_key(cs: Seq<TrieNode>, k: Seq<char>, k2: Seq<char>)
    ensures
        !has_key(without_key(cs, k), k),
        k2 != k ==> has_key(without_key(cs, k), k2) == has_key(cs, k2),
        k2 != k && has_key(cs, k2) ==> without_key(cs, k)[key_index(without_key(cs, k), k2)]
            == cs[key_index(cs, k2)],
        forall|i: int| 0 <= i < without_key(cs, k).len() ==> exists|j: int| 0 <= j < cs.len()
            && (#[trigger] without_key(cs, k)[i]) == cs[j],
        sorted_keys(cs) ==> sorted_keys(without_key(cs, k)),
    decreases cs.len(),
{
    let w = without_key(cs, k);
    if cs.len() == 0 {
    } else {
        let pre = cs.drop_last();
        let x = cs.last();
        let r = without_key(pre, k);
        assert(cs =~= pre.push(x));
        lemma_without_key(pre, k, k2);
        if x.segment@ != k {
            lemma_push_keys(r, x, k);
            lemma_push_keys(r, x, k2);
        }
        lemma_push_keys(pre, x, k2);
        if has_key(pre, k2) {
            lemma_key_index(pre, k2);
            assert(pre[key_index(pre, k2)] == cs[key_index(pre, k2)]);
        }
        if k2 != k && has_key(cs, k2) {
            if has_key(pre, k2) {
                lemma_key_index(r, k2);
                if x.segment@ != k {
                    assert(w == r.push(x));
                    assert(w[key_index(r, k2)] == r[key_index(r, k2)]);
                } else {
                    assert(w == r);
                }
            } else {
                assert(x.segment@ == k2);
                assert(w == r.push(x));
                assert(w[r.len() as int] == x);
                assert(cs[pre.len() as int] == x);
            }
        }
        assert forall|i: int| 0 <= i < w.len() implies exists|j: int| 0 <= j < cs.len() && (
        #[trigger] w[i]) == cs[j] by {
            if i < r.len() {
                assert(w[i] == r[i]);
                let j = choose|j: int| 0 <= j < pre.len() && r[i] == pre[j];
                assert(cs[j] == pre[j]);
            } else {
                assert(w[i] == cs[cs.len() - 1]);
            }
        }
        if sorted_keys(cs) {
            assert(sorted_keys(pre));
            if x.segment@ != k {
                assert forall|a: int, b: int| 0 <= a < b < w.len() implies seq_lt(
                    #[trigger] w[a].segment@,
                    #[trigger] w[b].segment@,
                ) by {
                    if b < r.len() {
                        assert(w[a] == r[a] && w[b] == r[b]);
                    } else {
                        assert(w[a] == r[a]);
                        assert(w[b] == x);
                        let j = choose|j: int| 0 <= j < pre.len() && r[a] == pre[j];
                        assert(cs[j] == pre[j]);
                    }
                }
            }
        }
    }
}

proof fn lemma_remove_last_level(old: TrieNode, new: TrieNode, p: Seq<Seq<char>>)
    requires
        p.len() == 1,
        new.children@ == without_key(old.children@, p[0]),
        same_attrs(new, old),
    ensures
        removed(old, new, p),
{
    let cs = old.children@;
    let k = p[0];
    assert forall|q: Seq<Seq<char>>|
        #![trigger lookup(new, q)]
        #![trigger lookup(old, q)]
        ((lookup(new, q) is Some) <==> (lookup(old, q) is Some && !is_prefix(p, q))) && (lookup(new, q) is Some
            ==> same_attrs(lookup(new, q)->0, lookup(old, q)->0)) by {
        if q.len() > 0 {
            lemma_without_key(cs, k, q[0]);
            if q[0] == k {
                assert(q.subrange(0, 1) =~= p);
            } else {
                assert(q.subrange(0, 1)[0] != p[0]);
                if has_key(cs, q[0]) {
                    lemma_key_index(cs, q[0]);
                }
            }
        }
    }
}

proof fn lemma_remove_below_child(
    old: TrieNode,
    new: TrieNode,
    j: int,
    c2: TrieNode,
    p: Seq<Seq<char>>,
)
    requires
        p.len() > 1,
        first_with_key(old.children@, p[0], j),
        new.children@ == old.children@.update(j, c2),
        same_attrs(new, old),
        removed(old.children@[j], c2, p.drop_first()),
    ensures
        removed(old, new, p),
        lookup(new, p.drop_first().take(0)) == Some(new),
{
    let cs = old.children@;
    let c1 = cs[j];
    let k = p[0];
    let rest = p.drop_first();
    assert(lookup(c2, Seq::empty()) is Some);
    assert(!is_prefix(rest, Seq::<Seq<char>>::empty()));
    assert(c2.segment == c1.segment);
    assert forall|q: Seq<Seq<char>>|
        #![trigger lookup(new, q)]
        #![trigger lookup(old, q)]
        ((lookup(new, q) is Some) <==> (lookup(old, q) is Some && !is_prefix(p, q))) && (lookup(new, q) is Some
            ==> same_attrs(lookup(new, q)->0, lookup(old, q)->0)) by {
        if q.len() > 0 {
            lemma_prefix_step(p, q);
            lemma_update_keys(cs, j, c2, q[0]);
            if q[0] == k {
                lemma_key_index_is(cs, k, j);
                assert(lookup(new, q) == lookup(c2, q.drop_first()));
                assert(lookup(old, q) == lookup(c1, q.drop_first()));
            } else {
                if has_key(cs, q[0]) {
                    lemma_key_index(cs, q[0]);
                }
            }
        } else {
            assert(!is_prefix(p, q));
        }
    }
}

/// Remove the subtree at `segs[i..]` below `node`; report whether it existed.
fn remove_below(node: &mut TrieNode, segs: &[&str], i: usize) -> (found: bool)
    requires
        i < segs@.len(),
    ensures
        found == (lookup(*old(node), strs_view(segs@).skip(i as int)) is Some),
        removed(*old(node), *final(node), strs_view(segs@).skip(i as int)),
        old(node).wf() ==> final(node).wf(),
    decreases segs@.len() - i,
{
    let ghost p = strs_view(segs@).skip(i as int);
    let ghost old_node = *node;
    assert(p[0] == segs@[i as int]@);
    assert(p.drop_first() == strs_view(segs@).skip(i + 1));
    let key = segs[i];
    if i == segs.len() - 1 {
        let ghost cs = node.children@;
        let mut kept: Vec<TrieNode> = Vec::new();
        let mut found = false;
        let mut t: usize = 0;
        let ghost orig = cs;
        assert(orig.len() == node.children.len());
        while node.children.len() > 0
            invariant
                orig == old_node.children@,
                orig.len() <= usize::MAX,
                t <= orig.len(),
                node.children@ == orig.skip(t as int),
                kept@ == without_key(orig.take(t as int), key@),
                found == has_key(orig.take(t as int), key@),
                same_attrs(*node, old_node),
            decreases node.children@.len(),
        {
            let c = node.children.remove(0);
            assert(c == orig[t as int]);
            assert(orig.take(t + 1).drop_last() == orig.take(t as int));
            assert(orig.take(t + 1).last() == c);
            assert(node.children@ =~= orig.skip(t + 1));
            proof {
                lemma_push_keys(orig.take(t as int), c, key@);
            }
            if str_eq(c.segment.as_str(), key) {
                found = true;
            } else {
                kept.push(c);
            }
            t += 1;
        }
        assert(orig.take(t as int) == orig);
        node.children = kept;
        proof {
            lemma_remove_last_level(old_node, *node, p);
            lemma_without_key(orig, key@, key@);
            assert(p.drop_first().len() == 0);
            if has_key(orig, key@) {
                lemma_key_index(orig, key@);
                assert(lookup(orig[key_index(orig, key@)], p.drop_first()) is Some);
                assert(lookup(old_node, p) is Some);
            } else {
                assert(lookup(old_node, p) is None);
            }
            if old_node.wf() {
                assert forall|a: int| 0 <= a < node.children@.len() implies (
                #[trigger] node.children@[a]).wf() by {
                    let j = choose|j: int| 0 <= j < orig.len() && without_key(orig, key@)[a] == orig[j];
                }
            }
        }
        found
    } else {
        match find_child(&node.children, key) {
            None => {
                assert(lookup(old_node, p) is None);
                proof {
                    assert forall|q: Seq<Seq<char>>|
                        #![trigger lookup(*node, q)]
                        (lookup(*node, q) is Some) ==> !is_prefix(p, q) by {
                        if is_prefix(p, q) && lookup(*node, q) is Some {
                            assert(q[0] == p[0]);
                        }
                    }
                }
                false
            },
            Some(j) => {
                let ghost cs = node.children@;
                let mut child = node.children.remove(j);
                assert(child == cs[j as int]);
                let found = remove_below(&mut child, segs, i + 1);
                let ghost c2 = child;
                node.children.insert(j, child);
                assert(node.children@ =~= cs.update(j as int, c2));
                proof {
                    lemma_remove_below_child(old_node, *node, j as int, c2, p);
                    lemma_key_index_is(cs, p[0], j as int);
                    if old_node.wf() {
                        assert(cs[j as int].wf());
                        assert(lookup(c2, Seq::empty()) is Some);
                        assert(same_attrs(lookup(c2, Seq::empty())->0, lookup(cs[j as int], Seq::empty())->0));
                        assert forall|a: int, b: int| 0 <= a < b < node.children@.len() implies seq_lt(
                            #[trigger] node.children@[a].segment@,
                            #[trigger] node.children@[b].segment@,
                        ) by {
                            assert(cs[a].segment@ == node.children@[a].segment@);
                            assert(cs[b].segment@ == node.children@[b].segment@);
                        }
                        assert forall|a: int| 0 <= a < node.children@.len() implies (
                        #[trigger] node.children@[a]).wf() by {
                            if a != j {
                                assert(node.children@[a] == cs[a]);
                            }
                        }
                    }
                }
                found
            },
        }
    }
}

// ---------------------------------------------------------------------------
// Construction and reading
// ---------------------------------------------------------------------------

impl TrieNode {
    /// A new node with no children and no time.
    pub fn new(segment: String, class: NodeClass, is_file: bool) -> (n: TrieNode)
        ensures
            n.segment == segment,
            n.class == class,
            n.is_file == is_file,
            n.children@.len() == 0,
            n.mtime is None,
    {
        TrieNode { segment, class, children: Vec::new(), is_file, mtime: None }
    }

    /// The number of nodes in this subtree, itself included.
    pub open spec fn spec_count(self) -> nat
        decreases self,
    {
        1 + count_all(self.children@)
    }

    /// Count the nodes in this subtree (including self).
    pub fn count(&self) -> (c: usize)
        requires
            self.spec_count() <= usize::MAX,
        ensures
            c == self.spec_count(),
        decreases self,
    {
        let mut total: usize = 1;
        let mut i: usize = 0;
        while i < self.children.len()
            invariant
                self.spec_count() <= usize::MAX,
                i <= self.children@.len(),
                total == 1 + count_all(self.children@.subrange(0, i as int)),
            decreases self.children@.len() - i,
        {
            proof {
                lemma_count_all_split(self.children@, i as int);
                lemma_count_all_prefix(self.children@, i + 1);
            }
            let c = self.children[i].count();
            total = total + c;
            i += 1;
        }
        assert(self.children@.subrange(0, self.children@.len() as int) == self.children@);
        total
    }

    /// Count the nodes in this subtree, or `None` when the count does not
    /// fit in a `usize` (the bound `count` needs, tested on the way).
    pub fn checked_count(&self) -> (r: Option<usize>)
        ensures
            match r {
                Some(c) => c == self.spec_count(),
                None => self.spec_count() > usize::MAX,
            },
        decreases self,
    {
        let mut total: usize = 1;
        let mut i: usize = 0;
        while i < self.children.len()
            invariant
                i <= self.children@.len(),
                total == 1 + count_all(self.children@.subrange(0, i as int)),
            decreases self.children@.len() - i,
        {
            proof {
                lemma_count_all_split(self.children@, i as int);
                lemma_count_all_prefix(self.children@, i + 1);
                lemma_count_all_prefix(self.children@, self.children@.len() as int);
            }
            let c = match self.children[i].checked_count() {
                Some(c) => c,
                None => {
                    proof {
                        assert(self.children@.subrange(0, self.children@.len() as int) == self.children@);
                    }
                    return None;
                },
            };
            total = match total.checked_add(c) {
                Some(t) => t,
                None => {
                    proof {
                        assert(self.children@.subrange(0, self.children@.len() as int) == self.children@);
                    }
                    return None;
                },
            };
            i += 1;
        }
        assert(self.children@.subrange(0, self.children@.len() as int) == self.children@);
        Some(total)
    }
}

/// The number of nodes in the subtrees `cs`.
pub open spec fn count_all(cs: Seq<TrieNode>) -> nat
    decreases cs,
{
    if cs.len() == 0 {
        0
    } else {
        count_all(cs.subrange(0, cs.len() - 1)) + cs[cs.len() - 1].spec_count()
    }
}

proof fn lemma_count_all_split(cs: Seq<TrieNode>, i: int)
    requires
        0 <= i < cs.len(),
    ensures
        count_all(cs.subrange(0, i + 1)) == count_all(cs.subrange(0, i)) + cs[i].spec_count(),
{
    assert(cs.subrange(0, i + 1).subrange(0, i) == cs.subrange(0, i));
}

proof fn lemma_count_all_prefix(cs: Seq<TrieNode>, i: int)
    requires
        0 <= i <= cs.len(),
    ensures
        count_all(cs.subrange(0, i)) <= count_all(cs),
    decreases cs.len() - i,
{
    if i < cs.len() {
        lemma_count_all_prefix(cs, i + 1);
        lemma_count_all_split(cs, i);
    } else {
        assert(cs.subrange(0, i) == cs);
    }
}

/// The position of the first child named `key`, if any.
pub fn find_child(children: &Vec<TrieNode>, key: &str) -> (r: Option<usize>)
    ensures
        r is None <==> !has_key(children@, key@),
        r matches Some(j) ==> j == key_index(children@, key@) && first_with_key(children@, key@, j as int),
{
    let mut i: usize = 0;
    while i < children.len()
        invariant
            i <= children@.len(),
            forall|j: int| 0 <= j < i ==> (#[trigger] children@[j]).segment@ != key@,
        decreases children@.len() - i,
    {
        if str_eq(children[i].segment.as_str(), key) {
            proof {
                lemma_key_index_is(children@, key@, i as int);
            }
            return Some(i);
        }
        i += 1;
    }
    None
}

// ---------------------------------------------------------------------------
// Leaves
// ---------------------------------------------------------------------------

/// The paths (below `n`, each starting with `prefix`) of the nodes without
/// children, in order; `n` itself counts only when `prefix` is not empty.
pub open spec fn leaves(n: TrieNode, prefix: Seq<Seq<char>>) -> Seq<Seq<Seq<char>>>
    decreases n,
{
    if n.children@.len() == 0 {
        if prefix.len() > 0 { seq![prefix] } else { Seq::empty() }
    } else {
        leaves_of(n.children@, prefix)
    }
}

/// The leaves below each of the children `cs` of a node at `prefix`.
pub open spec fn leaves_of(cs: Seq<TrieNode>, prefix: Seq<Seq<char>>) -> Seq<Seq<Seq<char>>>
    decreases cs,
{
    if cs.len() == 0 {
        Seq::empty()
    } else {
        leaves_of(cs.subrange(0, cs.len() - 1), prefix) + leaves(
            cs[cs.len() - 1],
            prefix.push(cs[cs.len() - 1].segment@),
        )
    }
}

/// The views of a list of paths.
pub open spec fn paths_view(v: Seq<Vec<String>>) -> Seq<Seq<Seq<char>>> {
    v.map_values(|p: Vec<String>| strings_view(p@))
}

proof fn lemma_leaves_of_step(cs: Seq<TrieNode>, i: int, prefix: Seq<Seq<char>>)
    requires
        0 <= i < cs.len(),
    ensures
        leaves_of(cs.subrange(0, i + 1), prefix) == leaves_of(cs.subrange(0, i), prefix) + leaves(
            cs[i],
            prefix.push(cs[i].segment@),
        ),
{
    assert(cs.subrange(0, i + 1).subrange(0, i) == cs.subrange(0, i));
}

/// Append to `results` the paths of the leaves below `node`, each prefixed
/// by `current`: directories and files without children both count.
pub fn collect_leaf_paths(node: &TrieNode, current: &mut Vec<String>, results: &mut Vec<Vec<String>>)
    ensures
        final(current)@ == old(current)@,
        paths_view(final(results)@) == paths_view(old(results)@) + leaves(*node, strings_view(old(current)@)),
    decreases node,
{
    let ghost prefix = strings_view(current@);
    if node.children.len() == 0 {
        if current.len() > 0 {
            let c = clone_strings(current);
            let ghost before = results@;
            results.push(c);
            assert(paths_view(results@) =~= paths_view(before).push(prefix));
        } else {
            assert(paths_view(results@) =~= paths_view(results@) + Seq::<Seq<Seq<char>>>::empty());
        }
        return;
    }
    let ghost start = paths_view(results@);
    let ghost cur0 = current@;
    let mut i: usize = 0;
    while i < node.children.len()
        invariant
            i <= node.children@.len(),
            current@ == cur0,
            prefix == strings_view(cur0),
            paths_view(results@) == start + leaves_of(node.children@.subrange(0, i as int), prefix),
        decreases node.children@.len() - i,
    {
        let child = &node.children[i];
        current.push(child.segment.clone());
        assert(strings_view(current@) =~= prefix.push(child.segment@));
        proof {
            lemma_leaves_of_step(node.children@, i as int, prefix);
        }
        if child.is_file && child.children.len() == 0 {
            let c = clone_strings(current);
            let ghost before = results@;
            results.push(c);
            assert(paths_view(results@) =~= paths_view(before).push(prefix.push(child.segment@)));
        } else {
            collect_leaf_paths(child, current, results);
        }
        current.pop();
        assert(current@ =~= cur0);
        i += 1;
    }
    assert(node.children@.subrange(0, node.children@.len() as int) == node.children@);
}

impl TrieNode {
    /// The `/`-joined paths, relative to this node, of the leaves below it.
    pub fn leaf_paths(&self) -> (r: Vec<String>)
        ensures
            strings_view(r@) == leaves(*self, Seq::empty()).map_values(
                |p: Seq<Seq<char>>| crate::strings::join_seq(p, seq!['/']),
            ),
    {
        let mut current: Vec<String> = Vec::new();
        let mut found: Vec<Vec<String>> = Vec::new();
        collect_leaf_paths(self, &mut current, &mut found);
        assert(strings_view(current@) =~= Seq::<Seq<char>>::empty());
        let ghost ls = leaves(*self, Seq::empty());
        assert(paths_view(found@) =~= ls);
        let mut r: Vec<String> = Vec::new();
        let mut i: usize = 0;
        while i < found.len()
            invariant
                i <= found@.len(),
                paths_view(found@) == ls,
                strings_view(r@) == ls.subrange(0, i as int).map_values(
                    |p: Seq<Seq<char>>| crate::strings::join_seq(p, seq!['/']),
                ),
            decreases found@.len() - i,
        {
            let joined = crate::strings::join_strings(found[i].as_slice(), "/");
            proof {
                reveal_strlit("/");
            }
            assert(paths_view(found@)[i as int] == strings_view(found@[i as int]@));
            assert("/"@ =~= seq!['/']);
            assert(joined@ == crate::strings::join_seq(ls[i as int], seq!['/']));
            let ghost before = r@;
            r.push(joined);
            assert(strings_view(r@) =~= strings_view(before).push(joined@));
            assert(strings_view(r@) =~= ls.subrange(0, i + 1).map_values(
                |p: Seq<Seq<char>>| crate::strings::join_seq(p, seq!['/']),
            ));
            i += 1;
        }
        assert(ls.subrange(0, ls.len() as int) == ls);
        r
    }
}

/// The node reached from `node` by following the names `segments`.
pub fn descend<'a>(node: &'a TrieNode, segments: &[&str]) -> (r: Option<&'a TrieNode>)
    ensures
        match r {
            Some(n) => lookup(*node, strs_view(segments@)) == Some(*n),
            None => lookup(*node, strs_view(segments@)) is None,
        },
{
    let ghost p = strs_view(segments@);
    let mut current: &TrieNode = node;
    let mut i: usize = 0;
    assert(p.skip(0) == p);
    while i < segments.len()
        invariant
            p == strs_view(segments@),
            i <= segments@.len(),
            lookup(*node, p) == lookup(*current, p.skip(i as int)),
        decreases segments@.len() - i,
    {
        assert(p.skip(i as int)[0] == segments@[i as int]@);
        assert(p.skip(i as int).drop_first() == p.skip(i + 1));
        match find_child(&current.children, segments[i]) {
            Some(j) => {
                current = &current.children[j];
            },
            None => {
                return None;
            },
        }
        i += 1;
    }
    assert(p.skip(i as int).len() == 0);
    Some(current)
}

/// Every tree is a copy of itself.
pub proof fn lemma_tree_eq_refl(n: TrieNode)
    ensures
        tree_eq(n, n),
    decreases n,
{
    assert forall|i: int| 0 <= i < n.children@.len() implies tree_eq(#[trigger] n.children@[i], n.children@[i]) by {
        lemma_tree_eq_refl(n.children@[i]);
    }
}

/// `new` is `old` with the node at `p` replaced by `sub`: every node on the
/// way keeps its attributes and its other children.
pub open spec fn replaced_at(old: TrieNode, new: TrieNode, p: Seq<Seq<char>>, sub: TrieNode) -> bool
    decreases p.len(),
{
    if p.len() == 0 {
        new == sub
    } else {
        let k = key_index(old.children@, p[0]);
        &&& has_key(old.children@, p[0])
        &&& same_attrs(new, old)
        &&& new.children@.len() == old.children@.len()
        &&& forall|j: int| 0 <= j < old.children@.len() && j != k ==> #[trigger] new.children@[j] == old.children@[j]
        &&& replaced_at(old.children@[k], new.children@[k], p.drop_first(), sub)
    }
}

/// The node reached from `node` by following `segments` from position `i`,
/// to change in place.
fn descend_mut<'a>(node: &'a mut TrieNode, segments: &[&str], i: usize) -> (r: Option<&'a mut TrieNode>)
    requires
        i <= segments@.len(),
    ensures
        match r {
            Some(n) => lookup(*old(node), strs_view(segments@).skip(i as int)) == Some(*n) && replaced_at(
                *old(node),
                *final(node),
                strs_view(segments@).skip(i as int),
                *final(n),
            ),
            None => lookup(*old(node), strs_view(segments@).skip(i as int)) is None && tree_eq(*final(node), *old(node)),
        },
    decreases segments@.len() - i,
{
    let ghost p = strs_view(segments@).skip(i as int);
    if i == segments.len() {
        assert(p.len() == 0);
        return Some(node);
    }
    assert(p[0] == segments@[i as int]@);
    assert(p.drop_first() == strs_view(segments@).skip(i + 1));
    match find_child(&node.children, segments[i]) {
        Some(j) => {
            proof {
                lemma_lookup_step(*node, p);
                assert forall|k: int| 0 <= k < node.children@.len() implies tree_eq(
                    #[trigger] node.children@[k],
                    node.children@[k],
                ) by {
                    lemma_tree_eq_refl(node.children@[k]);
                }
            }
            let child = &mut node.children[j];
            descend_mut(child, segments, i + 1)
        },
        None => {
            proof {
                lemma_lookup_step(*node, p);
                lemma_tree_eq_refl(*node);
            }
            None
        },
    }
}

/// The in-memory trie: its root stands for the filesystem root itself.
#[derive(Debug)]
pub struct Trie {
    pub root: TrieNode,
}

impl Trie {
    /// Look up the node at a relative path.
    pub fn get(&self, segments: &[&str]) -> (r: Option<&TrieNode>)
        ensures
            match r {
                Some(n) => lookup(self.root, strs_view(segments@)) == Some(*n),
                None => lookup(self.root, strs_view(segments@)) is None,
            },
    {
        let ghost p = strs_view(segments@);
        let mut current: &TrieNode = &self.root;
        let mut i: usize = 0;
        assert(p.skip(0) == p);
        while i < segments.len()
            invariant
                p == strs_view(segments@),
                i <= segments@.len(),
                lookup(self.root, p) == lookup(*current, p.skip(i as int)),
            decreases segments@.len() - i,
        {
            assert(p.skip(i as int)[0] == segments@[i as int]@);
            assert(p.skip(i as int).drop_first() == p.skip(i + 1));
            match find_child(&current.children, segments[i]) {
                Some(j) => {
                    current = &current.children[j];
                },
                None => {
                    return None;
                },
            }
            i += 1;
        }
        assert(p.skip(i as int).len() == 0);
        Some(current)
    }

    /// The node at a relative path, to change in place. Afterwards the trie
    /// is the old one with that node replaced by what it became.
    pub fn get_mut(&mut self, segments: &[&str]) -> (r: Option<&mut TrieNode>)
        ensures
            match r {
                Some(n) => lookup(old(self).root, strs_view(segments@)) == Some(*n) && replaced_at(
                    old(self).root,
                    final(self).root,
                    strs_view(segments@),
                    *final(n),
                ),
                None => lookup(old(self).root, strs_view(segments@)) is None && tree_eq(final(self).root, old(self).root),
            },
    {
        assert(strs_view(segments@).skip(0) == strs_view(segments@));
        descend_mut(&mut self.root, segments, 0)
    }

    /// The names of the children of the node at a relative path, in order.
    pub fn list(&self, segments: &[&str]) -> (r: Option<Vec<&str>>)
        ensures
            match r {
                Some(v) => lookup(self.root, strs_view(segments@)) matches Some(n)
                    && strs_view(v@) == n.children@.map_values(|c: TrieNode| c.segment@),
                None => lookup(self.root, strs_view(segments@)) is None,
            },
    {
        match self.get(segments) {
            None => None,
            Some(node) => {
                let mut names: Vec<&str> = Vec::new();
                let mut i: usize = 0;
                while i < node.children.len()
                    invariant
                        i <= node.children@.len(),
                        strs_view(names@) == node.children@.subrange(0, i as int).map_values(
                            |c: TrieNode| c.segment@,
                        ),
                    decreases node.children@.len() - i,
                {
                    let ghost before = names@;
                    let name = node.children[i].segment.as_str();
                    names.push(name);
                    assert(names@ == before.push(name));
                    assert(strs_view(names@) =~= strs_view(before).push(name@));
                    assert(node.children@.subrange(0, i + 1) =~= node.children@.subrange(0, i as int).push(node.children@[i as int]));
                    assert(strs_view(names@) =~= node.children@.subrange(0, i + 1).map_values(
                        |c: TrieNode| c.segment@,
                    ));
                    i += 1;
                }
                assert(node.children@.subrange(0, node.children@.len() as int) == node.children@);
                Some(names)
            },
        }
    }

    /// Insert a node at the given path, creating intermediate directories.
    /// An existing node keeps its class, time and children; only its kind is
    /// set. An empty path changes nothing.
    pub fn insert(&mut self, segments: &[String], is_file: bool, alphabet: &Alphabet)
        ensures
            segments@.len() > 0 ==> inserted(
                old(self).root,
                final(self).root,
                strings_view(segments@),
                is_file,
                alphabet@,
                None,
            ),
            segments@.len() == 0 ==> final(self).root == old(self).root,
            old(self).root.wf() ==> final(self).root.wf(),
    {
        if segments.len() > 0 {
            insert_below(&mut self.root, segments, 0, is_file, None, alphabet);
            assert(path_from(segments@, 0) == strings_view(segments@));
        }
    }

    /// Remove the node at the given path with everything below it. Returns
    /// whether it was found; an empty path removes nothing.
    pub fn remove(&mut self, segments: &[&str]) -> (found: bool)
        ensures
            segments@.len() > 0 ==> found == (lookup(old(self).root, strs_view(segments@)) is Some),
            segments@.len() > 0 ==> removed(old(self).root, final(self).root, strs_view(segments@)),
            segments@.len() == 0 ==> !found && final(self).root == old(self).root,
            old(self).root.wf() ==> final(self).root.wf(),
    {
        if segments.len() == 0 {
            return false;
        }
        let found = remove_below(&mut self.root, segments, 0);
        assert(strs_view(segments@).skip(0) == strs_view(segments@));
        found
    }

    /// The number of nodes in the trie, the root excluded.
    pub fn total_nodes(&self) -> (n: usize)
        requires
            self.root.spec_count() <= usize::MAX,
        ensures
            n == self.root.spec_count() - 1,
    {
        self.root.count() - 1
    }

    /// The number of nodes in the trie, the root excluded, or `None` when
    /// the count does not fit in a `usize`.
    pub fn checked_total_nodes(&self) -> (r: Option<usize>)
        ensures
            match r {
                Some(n) => n == self.root.spec_count() - 1,
                None => self.root.spec_count() > usize::MAX,
            },
    {
        match self.root.checked_count() {
            Some(c) => Some(c - 1),
            None => None,
        }
    }
}


// ---------------------------------------------------------------------------
// Laws of insertion and removal
// ---------------------------------------------------------------------------

/// What is inserted can be looked up, with the kind it was inserted as,
/// and so can every directory on the way to it.
pub proof fn lemma_insert_then_lookup(
    old: TrieNode,
    new: TrieNode,
    p: Seq<Seq<char>>,
    is_file: bool,
    doors: Set<char>,
    q: Seq<Seq<char>>,
)
    requires
        p.len() > 0,
        inserted(old, new, p, is_file, doors, None),
        is_prefix(q, p),
    ensures
        lookup(new, q) is Some,
        lookup(new, p) is Some && (lookup(new, p)->0).is_file == is_file,
{
    assert(p.subrange(0, p.len() as int) =~= p);
    assert(is_prefix(p, p));
}

/// Insertion loses nothing and changes nothing else: every node that was
/// there stays, with the same attributes unless it is the inserted one.
pub proof fn lemma_insert_keeps_others(
    old: TrieNode,
    new: TrieNode,
    p: Seq<Seq<char>>,
    is_file: bool,
    doors: Set<char>,
    q: Seq<Seq<char>>,
)
    requires
        inserted(old, new, p, is_file, doors, None),
        lookup(old, q) is Some,
        q != p,
    ensures
        lookup(new, q) is Some,
        same_attrs(lookup(new, q)->0, lookup(old, q)->0),
{
}

/// What is removed can no longer be looked up, nor anything below it.
pub proof fn lemma_remove_then_lookup(old: TrieNode, new: TrieNode, p: Seq<Seq<char>>, q: Seq<Seq<char>>)
    requires
        removed(old, new, p),
        is_prefix(p, q),
    ensures
        lookup(new, q) is None,
{
}

/// Removal keeps every node that is not below the removed path.
pub proof fn lemma_remove_keeps_others(old: TrieNode, new: TrieNode, p: Seq<Seq<char>>, q: Seq<Seq<char>>)
    requires
        removed(old, new, p),
        lookup(old, q) is Some,
        !is_prefix(p, q),
    ensures
        lookup(new, q) is Some,
        same_attrs(lookup(new, q)->0, lookup(old, q)->0),
{
}

/// Removing what was just inserted leaves exactly the paths that were
/// there before, apart from the directories created on the way to it.
pub proof fn lemma_insert_then_remove(
    old: TrieNode,
    mid: TrieNode,
    new: TrieNode,
    p: Seq<Seq<char>>,
    is_file: bool,
    doors: Set<char>,
    q: Seq<Seq<char>>,
)
    requires
        p.len() > 0,
        inserted(old, mid, p, is_file, doors, None),
        removed(mid, new, p),
        !is_prefix(q, p),
        !is_prefix(p, q),
    ensures
        (lookup(new, q) is Some) == (lookup(old, q) is Some),
{
}

// ---------------------------------------------------------------------------
// Building the trie from a filesystem walk
// ---------------------------------------------------------------------------

/// One entry of a filesystem walk below the root, in walk order.
#[derive(Debug)]
pub struct WalkEntry {
    /// The path relative to the root, `/`-separated.
    pub relative: String,
    /// Whether the entry is a regular file.
    pub is_file: bool,
    /// The entry's modification time in nanoseconds since the Unix epoch, when known.
    pub mtime: Option<u64>,
}

/// The segment names of a walk entry.
pub open spec fn entry_path(e: WalkEntry) -> Seq<Seq<char>> {
    path_components(e.relative@)
}

/// Whether the walk keeps an entry: not the root itself, no component is a
/// dotfile, and not under `pointers/unicodes` or `.git`.
pub open spec fn is_kept(e: WalkEntry) -> bool {
    &&& entry_path(e).len() > 0
    &&& forall|k: int| 0 <= k < entry_path(e).len() ==> !((#[trigger] entry_path(e)[k]).len() > 0 && entry_path(e)[k][0] == '.')
    &&& !is_prefix("pointers/unicodes"@, e.relative@)
    &&& !is_prefix(".git"@, e.relative@)
}

/// Some kept entry's path goes through `q`.
pub open spec fn indexes(es: Seq<WalkEntry>, q: Seq<Seq<char>>) -> bool {
    exists|i: int| 0 <= i < es.len() && is_kept(#[trigger] es[i]) && is_prefix(q, entry_path(es[i]))
}

/// Entry `i` is kept and names exactly `q`.
pub open spec fn names(es: Seq<WalkEntry>, q: Seq<Seq<char>>, i: int) -> bool {
    0 <= i < es.len() && is_kept(es[i]) && entry_path(es[i]) == q
}

/// Entry `i` is the last kept entry that names `q`.
pub open spec fn last_naming(es: Seq<WalkEntry>, q: Seq<Seq<char>>, i: int) -> bool {
    names(es, q, i) && forall|j: int| i < j < es.len() ==> !names(es, q, j)
}

/// Entry `i` is the last kept file entry that names `q`.
pub open spec fn last_file_naming(es: Seq<WalkEntry>, q: Seq<Seq<char>>, i: int) -> bool {
    names(es, q, i) && es[i].is_file && forall|j: int| i < j < es.len() ==> !(names(es, q, j) && es[j].is_file)
}

/// The trie that a walk builds: exactly the paths of the kept entries and
/// their prefixes, each node of the class of its name, a node's kind taken
/// from the last entry that names it (a directory when none does) and its
/// time from the last file entry that names it (none when none does).
pub open spec fn built_from(root: TrieNode, es: Seq<WalkEntry>, doors: Set<char>) -> bool {
    &&& root.segment@ == Seq::<char>::empty()
    &&& root.class@ == NodeClassView::Data(Seq::empty())
    &&& !root.is_file
    &&& root.mtime is None
    &&& forall|q: Seq<Seq<char>>|
        #![trigger lookup(root, q)]
        (lookup(root, q) is Some) <==> (q.len() == 0 || indexes(es, q))
    &&& forall|q: Seq<Seq<char>>|
        #![trigger lookup(root, q)]
        q.len() > 0 && lookup(root, q) is Some ==> (lookup(root, q)->0).class@ == classify(q.last(), doors)
    &&& forall|q: Seq<Seq<char>>, i: int|
        #![trigger last_naming(es, q, i)]
        last_naming(es, q, i) ==> (lookup(root, q)->0).is_file == es[i].is_file
    &&& forall|q: Seq<Seq<char>>, i: int|
        #![trigger last_file_naming(es, q, i)]
        last_file_naming(es, q, i) ==> (lookup(root, q)->0).mtime == es[i].mtime
    &&& forall|q: Seq<Seq<char>>|
        #![trigger lookup(root, q)]
        q.len() > 0 && lookup(root, q) is Some && (forall|i: int| !names(es, q, i))
            ==> !(lookup(root, q)->0).is_file
    &&& forall|q: Seq<Seq<char>>|
        #![trigger lookup(root, q)]
        q.len() > 0 && lookup(root, q) is Some && (forall|i: int| !(#[trigger] names(es, q, i) && es[i].is_file))
            ==> (lookup(root, q)->0).mtime is None
}

proof fn lemma_built_step(old: TrieNode, new: TrieNode, es: Seq<WalkEntry>, i: int, doors: Set<char>)
    requires
        0 <= i < es.len(),
        built_from(old, es.take(i), doors),
        is_kept(es[i]) ==> inserted(old, new, entry_path(es[i]), es[i].is_file, doors, Some(es[i].mtime)),
        !is_kept(es[i]) ==> new == old,
    ensures
        built_from(new, es.take(i + 1), doors),
{
    let pre = es.take(i);
    let cur = es.take(i + 1);
    let e = es[i];
    let p = entry_path(e);
    assert(cur[i] == e);
    assert forall|j: int| 0 <= j < i implies #[trigger] cur[j] == pre[j] by {}
    assert forall|q: Seq<Seq<char>>| indexes(cur, q) <==> (indexes(pre, q) || (is_kept(e) && is_prefix(q, p))) by {
        if indexes(cur, q) {
            let j = choose|j: int| 0 <= j < cur.len() && is_kept(#[trigger] cur[j]) && is_prefix(q, entry_path(cur[j]));
            if j < i {
                assert(pre[j] == cur[j]);
            }
        }
        if indexes(pre, q) {
            let j = choose|j: int| 0 <= j < pre.len() && is_kept(#[trigger] pre[j]) && is_prefix(q, entry_path(pre[j]));
            assert(cur[j] == pre[j]);
        }
        if is_kept(e) && is_prefix(q, p) {
            assert(is_kept(cur[i]) && is_prefix(q, entry_path(cur[i])));
        }
    }
    assert forall|q: Seq<Seq<char>>, j: int| #[trigger] names(cur, q, j) <==> (names(pre, q, j) || (j == i && is_kept(e) && p == q)) by {
        if 0 <= j < i {
            assert(cur[j] == pre[j]);
        }
    }
    if !is_kept(e) {
        assert forall|q: Seq<Seq<char>>, j: int| #![trigger last_naming(cur, q, j)] last_naming(cur, q, j) ==> last_naming(pre, q, j) by {
            if last_naming(cur, q, j) {
                assert forall|l: int| j < l < pre.len() implies !names(pre, q, l) by {
                    assert(!names(cur, q, l));
                }
            }
        }
        assert forall|q: Seq<Seq<char>>, j: int| #![trigger last_file_naming(cur, q, j)] last_file_naming(cur, q, j) ==> last_file_naming(pre, q, j) by {
            if last_file_naming(cur, q, j) {
                assert(pre[j] == cur[j]);
                assert forall|l: int| j < l < pre.len() implies !(names(pre, q, l) && pre[l].is_file) by {
                    assert(!(names(cur, q, l) && cur[l].is_file));
                    assert(pre[l] == cur[l]);
                }
            }
        }
        assert forall|q: Seq<Seq<char>>|
            q.len() > 0 && lookup(new, q) is Some && (forall|j: int| !names(cur, q, j)) implies !(lookup(new, q)->0).is_file by {
            assert forall|j: int| !names(pre, q, j) by {
                assert(!names(cur, q, j));
            }
        }
        assert forall|q: Seq<Seq<char>>|
            q.len() > 0 && lookup(new, q) is Some && (forall|j: int| !(#[trigger] names(cur, q, j) && cur[j].is_file)) implies (lookup(new, q)->0).mtime is None by {
            assert forall|j: int| !(#[trigger] names(pre, q, j) && pre[j].is_file) by {
                assert(!(names(cur, q, j) && cur[j].is_file));
                if 0 <= j < i {
                    assert(cur[j] == pre[j]);
                }
            }
        }
    } else {
        assert(lookup(old, Seq::empty()) == Some(old));
        assert(lookup(new, Seq::empty()) == Some(new));
        assert(Seq::<Seq<char>>::empty() != p);
        assert forall|q: Seq<Seq<char>>|
            #![trigger lookup(new, q)]
            q.len() > 0 && lookup(new, q) is Some ==> (lookup(new, q)->0).class@ == classify(q.last(), doors) by {
            if q.len() > 0 && lookup(new, q) is Some {
                if lookup(old, q) is Some && q != p {
                } else if q == p {
                } else {
                    assert(is_prefix(q, p));
                    assert(q.len() <= p.len());
                    if q.len() == p.len() {
                        assert(p.subrange(0, q.len() as int) == p);
                    }
                }
            }
        }
        assert forall|q: Seq<Seq<char>>, j: int| #![trigger last_naming(cur, q, j)] last_naming(cur, q, j) ==> (lookup(new, q)->0).is_file == cur[j].is_file by {
            if last_naming(cur, q, j) {
                if j == i {
                } else {
                    assert(q != p) by {
                        if q == p {
                            assert(names(cur, q, i));
                        }
                    }
                    assert forall|l: int| j < l < pre.len() implies !names(pre, q, l) by {
                        assert(!names(cur, q, l));
                    }
                    assert(last_naming(pre, q, j));
                    assert(cur[j] == pre[j]);
                    assert(is_prefix(q, entry_path(pre[j]))) by {
                        assert(entry_path(pre[j]).subrange(0, q.len() as int) =~= q);
                    }
                    assert(indexes(pre, q));
                }
            }
        }
        assert forall|q: Seq<Seq<char>>, j: int| #![trigger last_file_naming(cur, q, j)] last_file_naming(cur, q, j) ==> (lookup(new, q)->0).mtime == cur[j].mtime by {
            if last_file_naming(cur, q, j) {
                if j == i {
                } else {
                    assert(cur[j] == pre[j]);
                    assert forall|l: int| j < l < pre.len() implies !(names(pre, q, l) && pre[l].is_file) by {
                        assert(!(names(cur, q, l) && cur[l].is_file));
                        assert(pre[l] == cur[l]);
                    }
                    assert(last_file_naming(pre, q, j));
                    assert(is_prefix(q, entry_path(pre[j]))) by {
                        assert(entry_path(pre[j]).subrange(0, q.len() as int) =~= q);
                    }
                    assert(indexes(pre, q));
                    if q == p {
                        assert(!e.is_file) by {
                            assert(!(names(cur, q, i) && cur[i].is_file));
                        }
                    }
                }
            }
        }
        assert forall|q: Seq<Seq<char>>|
            q.len() > 0 && lookup(new, q) is Some && (forall|j: int| !names(cur, q, j)) implies !(lookup(new, q)->0).is_file by {
            assert(!names(cur, q, i));
            assert(q != p);
            assert forall|j: int| !names(pre, q, j) by {
                assert(!names(cur, q, j));
            }
            if lookup(old, q) is None {
                assert(is_prefix(q, p));
                assert(q.len() < p.len()) by {
                    if q.len() == p.len() {
                        assert(p.subrange(0, q.len() as int) == p);
                    }
                }
            }
        }
        assert forall|q: Seq<Seq<char>>|
            q.len() > 0 && lookup(new, q) is Some && (forall|j: int| !(#[trigger] names(cur, q, j) && cur[j].is_file)) implies (lookup(new, q)->0).mtime is None by {
            assert(!(names(cur, q, i) && cur[i].is_file));
            assert forall|j: int| !(#[trigger] names(pre, q, j) && pre[j].is_file) by {
                assert(!(names(cur, q, j) && cur[j].is_file));
                if 0 <= j < i {
                    assert(cur[j] == pre[j]);
                }
            }
            if lookup(old, q) is None && q != p {
                assert(is_prefix(q, p));
                assert(q.len() < p.len()) by {
                    if q.len() == p.len() {
                        assert(p.subrange(0, q.len() as int) == p);
                    }
                }
            }
        }
    }
}

fn entry_is_kept(e: &WalkEntry, segs: &Vec<String>) -> (r: bool)
    requires
        strings_view(segs@) == entry_path(*e),
    ensures
        r == is_kept(*e),
{
    if segs.len() == 0 {
        return false;
    }
    let mut k: usize = 0;
    while k < segs.len()
        invariant
            strings_view(segs@) == entry_path(*e),
            k <= segs@.len(),
            forall|j: int| 0 <= j < k ==> !((#[trigger] entry_path(*e)[j]).len() > 0 && entry_path(*e)[j][0] == '.'),
        decreases segs@.len() - k,
    {
        assert(entry_path(*e)[k as int] == segs@[k as int]@);
        if starts_with_char(segs[k].as_str(), '.') {
            return false;
        }
        k += 1;
    }
    let under_unicodes = str_starts_with(e.relative.as_str(), "pointers/unicodes");
    let under_git = str_starts_with(e.relative.as_str(), ".git");
    !under_unicodes && !under_git
}

impl Trie {
    /// Build the trie from the entries of a walk of the filesystem (sorted by
    /// name, parents before children). Skips the root itself, dotfiles and
    /// dot-directories, and the `pointers/unicodes` tree.
    pub fn build_from_entries(entries: &[WalkEntry], alphabet: &Alphabet) -> (t: Trie)
        ensures
            built_from(t.root, entries@, alphabet@),
            t.root.wf(),
    {
        let mut root = TrieNode::new(String::new(), NodeClass::Data(String::new()), false);
        assert(root.segment@ == Seq::<char>::empty());
        proof {
            assert forall|q: Seq<Seq<char>>|
                #![trigger lookup(root, q)]
                (lookup(root, q) is Some) <==> (q.len() == 0 || indexes(entries@.take(0), q)) by {
                lemma_lookup_leaf(root, q);
            }
        }
        let mut i: usize = 0;
        while i < entries.len()
            invariant
                i <= entries@.len(),
                built_from(root, entries@.take(i as int), alphabet@),
                root.wf(),
            decreases entries@.len() - i,
        {
            let ghost old_root = root;
            let e = &entries[i];
            let segs = components(e.relative.as_str());
            if entry_is_kept(e, &segs) {
                insert_below(&mut root, segs.as_slice(), 0, e.is_file, Some(e.mtime), alphabet);
                assert(path_from(segs@, 0) == entry_path(*e));
            }
            proof {
                lemma_built_step(old_root, root, entries@, i as int, alphabet@);
            }
            i += 1;
        }
        assert(entries@.take(entries@.len() as int) == entries@);
        Trie { root }
    }
}

} // verus!
