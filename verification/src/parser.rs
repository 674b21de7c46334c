//! Classification of path segments and parsing of whole paths.
//!
//! Every segment is read by its first character: `€` makes a pointer node,
//! a reserved logic door makes an instruction node, anything else is data.
use vstd::prelude::*;
use crate::alphabet::{Alphabet, ESCAPE};
use crate::normalize::{nfc, nfc_string};
use crate::strings::{chars_of, drop_first_char, is_prefix, push_char, starts_with_char, str_eq, strings_view};

verus! {

/// Classification of a single path segment.
#[derive(Debug, PartialEq, Eq)]
pub enum NodeClass {
    /// Data node: the name is the value (`blue`, `001`).
    Data(String),
    /// Instruction node: a logic door followed by its argument (`-expected`).
    Instruction { door: char, arg: String },
    /// Pointer node: `€` followed by a literal (`€$price`).
    Pointer(String),
}

impl Clone for NodeClass {
    fn clone(&self) -> (r: Self)
        ensures
            r == *self,
    {
        match self {
            NodeClass::Data(s) => NodeClass::Data(s.clone()),
            NodeClass::Instruction { door, arg } => NodeClass::Instruction { door: *door, arg: arg.clone() },
            NodeClass::Pointer(s) => NodeClass::Pointer(s.clone()),
        }
    }
}

/// The mathematical value of a [`NodeClass`].
pub enum NodeClassView {
    Data(Seq<char>),
    Instruction { door: char, arg: Seq<char> },
    Pointer(Seq<char>),
}

impl View for NodeClass {
    type V = NodeClassView;

    open spec fn view(&self) -> NodeClassView {
        match self {
            NodeClass::Data(s) => NodeClassView::Data(s@),
            NodeClass::Instruction { door, arg } => NodeClassView::Instruction { door: *door, arg: arg@ },
            NodeClass::Pointer(s) => NodeClassView::Pointer(s@),
        }
    }
}

/// How a segment named `name` is classified under the doors `doors`: its NFC
/// form is a pointer when it starts with `€`, an instruction when it starts
/// with a door, data otherwise (the empty name is empty data).
pub open spec fn classify(name: Seq<char>, doors: Set<char>) -> NodeClassView {
    let n = nfc(name);
    if n.len() == 0 {
        NodeClassView::Data(Seq::empty())
    } else if n[0] == ESCAPE {
        NodeClassView::Pointer(n.drop_first())
    } else if doors.contains(n[0]) {
        NodeClassView::Instruction { door: n[0], arg: n.drop_first() }
    } else {
        NodeClassView::Data(n)
    }
}

/// The name a classification stands for: the door or escape put back in
/// front of the argument.
pub open spec fn class_name(c: NodeClassView) -> Seq<char> {
    match c {
        NodeClassView::Data(s) => s,
        NodeClassView::Instruction { door, arg } => seq![door] + arg,
        NodeClassView::Pointer(s) => seq!['€'] + s,
    }
}

/// Classifying loses no character: putting the door or escape back gives
/// the (NFC) name. A pointer is exactly a name starting with `€`; an
/// instruction's door is a reserved door other than `€`; data never starts
/// with a reserved door.
pub proof fn lemma_classification_keeps_the_name(name: Seq<char>, doors: Set<char>)
    ensures
        class_name(classify(name, doors)) == nfc(name),
        (classify(name, doors) is Pointer) <==> (nfc(name).len() > 0 && nfc(name)[0] == '€'),
        classify(name, doors) matches NodeClassView::Instruction { door, arg } ==> doors.contains(door) && door != '€',
        classify(name, doors) matches NodeClassView::Data(s) ==> (s.len() == 0 || (!doors.contains(s[0]) && s[0] != '€')),
{
    let n = nfc(name);
    if n.len() > 0 {
        assert(seq![n[0]] + n.drop_first() =~= n);
    } else {
        assert(n =~= Seq::<char>::empty());
    }
}

/// Classify a single path segment (file or directory name).
pub fn classify_segment(name: &str, alphabet: &Alphabet) -> (c: NodeClass)
    ensures
        c@ == classify(name@, alphabet@),
{
    let normalized = nfc_string(name);
    let cs = chars_of(normalized.as_str());
    if cs.len() == 0 {
        return NodeClass::Data(String::new());
    }
    let first = cs[0];
    if alphabet.is_escape(first) {
        NodeClass::Pointer(drop_first_char(normalized.as_str()))
    } else if alphabet.is_reserved(first) {
        NodeClass::Instruction { door: first, arg: drop_first_char(normalized.as_str()) }
    } else {
        NodeClass::Data(normalized)
    }
}

// ---------------------------------------------------------------------------
// Splitting and path components
// ---------------------------------------------------------------------------

/// The pieces of `s` between occurrences of `sep` (always at least one).
pub open spec fn split_seq(s: Seq<char>, sep: char) -> Seq<Seq<char>>
    decreases s.len(),
{
    if s.len() == 0 {
        seq![Seq::empty()]
    } else {
        let r = split_seq(s.drop_last(), sep);
        if s.last() == sep {
            r.push(Seq::empty())
        } else {
            r.update(r.len() - 1, r.last().push(s.last()))
        }
    }
}

/// Splitting always yields at least one piece.
pub proof fn lemma_split_nonempty(s: Seq<char>, sep: char)
    ensures
        split_seq(s, sep).len() >= 1,
    decreases s.len(),
{
    if s.len() > 0 {
        lemma_split_nonempty(s.drop_last(), sep);
    }
}

/// The pieces of `s` between occurrences of `sep`.
pub fn split_str(s: &str, sep: char) -> (r: Vec<String>)
    ensures
        strings_view(r@) == split_seq(s@, sep),
{
    let cs = chars_of(s);
    let mut done: Vec<String> = Vec::new();
    let mut cur = String::new();
    let mut i: usize = 0;
    while i < cs.len()
        invariant
            cs@ == s@,
            i <= cs@.len(),
            strings_view(done@).push(cur@) == split_seq(cs@.take(i as int), sep),
        decreases cs@.len() - i,
    {
        let ghost before = cs@.take(i as int);
        assert(cs@.take(i + 1).drop_last() == before);
        assert(cs@.take(i + 1).last() == cs@[i as int]);
        proof {
            lemma_split_nonempty(before, sep);
        }
        if cs[i] == sep {
            let ghost d = done@;
            let ghost cv = cur@;
            done.push(cur);
            cur = String::new();
            assert(strings_view(done@) == strings_view(d).push(cv));
        } else {
            let ghost d = done@;
            push_char(&mut cur, cs[i]);
            assert(strings_view(done@).push(cur@) =~= strings_view(d).push(cur@));
        }
        i += 1;
    }
    assert(cs@.take(cs@.len() as int) == cs@);
    let ghost d = done@;
    let ghost cv = cur@;
    done.push(cur);
    assert(strings_view(done@) == strings_view(d).push(cv));
    done
}

/// Whether a piece of a path is a component: non-empty, and not `.` unless
/// it is the first piece.
pub open spec fn keep_piece(p: Seq<char>, first: bool) -> bool {
    p.len() > 0 && (p != seq!['.'] || first)
}

/// The pieces that are components, in order.
pub open spec fn kept_pieces(ps: Seq<Seq<char>>) -> Seq<Seq<char>>
    decreases ps.len(),
{
    if ps.len() == 0 {
        Seq::empty()
    } else {
        kept_pieces(ps.drop_last()) + if keep_piece(ps.last(), ps.len() == 1) {
            seq![ps.last()]
        } else {
            Seq::empty()
        }
    }
}

/// The components of a `/`-separated path, as `Path::components` reads them:
/// a leading `/` is the root component `/`, empty pieces and `.` pieces are
/// dropped except a leading `.` of a relative path.
pub open spec fn path_components(s: Seq<char>) -> Seq<Seq<char>> {
    (if s.len() > 0 && s[0] == '/' { seq![seq!['/']] } else { Seq::empty() }) + kept_pieces(
        split_seq(s, '/'),
    )
}

/// The components of the path `s`.
pub fn components(s: &str) -> (r: Vec<String>)
    ensures
        strings_view(r@) == path_components(s@),
{
    let pieces = split_str(s, '/');
    let mut r: Vec<String> = Vec::new();
    let ghost root: Seq<Seq<char>> = if s@.len() > 0 && s@[0] == '/' { seq![seq!['/']] } else { Seq::empty() };
    if starts_with_char(s, '/') {
        let mut slash = String::new();
        push_char(&mut slash, '/');
        r.push(slash);
    }
    assert(strings_view(r@) == root);
    let ghost ps = strings_view(pieces@);
    let mut i: usize = 0;
    while i < pieces.len()
        invariant
            ps == strings_view(pieces@),
            i <= pieces@.len(),
            strings_view(r@) == root + kept_pieces(ps.take(i as int)),
        decreases pieces@.len() - i,
    {
        assert(ps.take(i + 1).drop_last() == ps.take(i as int));
        assert(ps.take(i + 1).last() == pieces@[i as int]@);
        let p = &pieces[i];
        let keep = if p.as_str().unicode_len() == 0 {
            false
        } else {
            let dot = str_eq(p.as_str(), ".");
            proof {
                reveal_strlit(".");
                assert(".".view() == seq!['.']);
            }
            !dot || i == 0
        };
        assert(keep == keep_piece(ps[i as int], i + 1 == 1));
        if keep {
            let ghost before = r@;
            r.push(pieces[i].clone());
            assert(strings_view(r@) == strings_view(before).push(pieces@[i as int]@));
            assert(strings_view(r@) =~= root + kept_pieces(ps.take(i + 1)));
        } else {
            assert(kept_pieces(ps.take(i + 1)) =~= kept_pieces(ps.take(i as int)));
        }
        i += 1;
    }
    assert(ps.take(ps.len() as int) == ps);
    r
}

/// `p` with the leading components `root` removed, or `p` itself when `root`
/// is not a prefix of it (the rule of `Path::strip_prefix` followed by
/// `unwrap_or(path)`).
pub open spec fn strip_components(p: Seq<Seq<char>>, root: Seq<Seq<char>>) -> Seq<Seq<char>> {
    if is_prefix(root, p) { p.skip(root.len() as int) } else { p }
}

/// Whether a component is visible: not empty and not a dotfile.
pub open spec fn visible(c: Seq<char>) -> bool {
    c.len() > 0 && c[0] != '.'
}

/// The visible components, in order.
pub open spec fn visible_components(cs: Seq<Seq<char>>) -> Seq<Seq<char>> {
    cs.filter(|c: Seq<char>| visible(c))
}

/// A fully parsed path with classified segments.
#[derive(Debug, Clone)]
pub struct ParsedPath {
    /// Each visible segment of the path, classified.
    pub segments: Vec<NodeClass>,
    /// The top-level scope: the first component after the root.
    pub scope: Option<String>,
    /// Whether the path names a file (leaf) rather than a directory.
    pub is_leaf: bool,
}

/// The components of `path` relative to `fs_root`.
pub open spec fn relative_components(path: Seq<char>, fs_root: Seq<char>) -> Seq<Seq<char>> {
    strip_components(path_components(path), path_components(fs_root))
}

fn strip_prefix_components(p: &Vec<String>, root: &Vec<String>) -> (r: usize)
    ensures
        r <= p@.len(),
        strings_view(p@).skip(r as int) == strip_components(strings_view(p@), strings_view(root@)),
{
    let ghost pv = strings_view(p@);
    let ghost rv = strings_view(root@);
    if root.len() > p.len() {
        assert(pv.skip(0) == pv);
        return 0;
    }
    let mut i: usize = 0;
    while i < root.len()
        invariant
            pv == strings_view(p@),
            rv == strings_view(root@),
            root@.len() <= p@.len(),
            i <= root@.len(),
            forall|j: int| 0 <= j < i ==> pv[j] == rv[j],
        decreases root@.len() - i,
    {
        if !str_eq(p[i].as_str(), root[i].as_str()) {
            assert(pv.subrange(0, rv.len() as int)[i as int] != rv[i as int]);
            assert(pv.skip(0) == pv);
            return 0;
        }
        i += 1;
    }
    assert(pv.subrange(0, rv.len() as int) =~= rv);
    root.len()
}

/// Parse a filesystem path into classified segments.
///
/// The `fs_root` prefix is stripped when present; dotfile and empty
/// segments are skipped; the scope is the first remaining component.
pub fn parse_path(path: &str, fs_root: &str, alphabet: &Alphabet, is_file: bool) -> (p: ParsedPath)
    ensures
        p.segments@.map_values(|c: NodeClass| c@) == visible_components(
            relative_components(path@, fs_root@),
        ).map_values(|c: Seq<char>| classify(c, alphabet@)),
        relative_components(path@, fs_root@).len() == 0 ==> p.scope is None,
        relative_components(path@, fs_root@).len() > 0 ==> (p.scope matches Some(s) && s@
            == relative_components(path@, fs_root@)[0]),
        p.is_leaf == is_file,
{
    let comps = components(path);
    let root = components(fs_root);
    let start = strip_prefix_components(&comps, &root);
    let ghost rel = relative_components(path@, fs_root@);
    let ghost cv = strings_view(comps@);
    assert(rel == cv.skip(start as int));
    let mut segments: Vec<NodeClass> = Vec::new();
    let mut i: usize = start;
    while i < comps.len()
        invariant
            cv == strings_view(comps@),
            rel == cv.skip(start as int),
            start <= i <= comps@.len(),
            segments@.map_values(|c: NodeClass| c@) == visible_components(
                rel.take(i - start),
            ).map_values(|c: Seq<char>| classify(c, alphabet@)),
        decreases comps@.len() - i,
    {
        let ghost before = rel.take(i - start);
        let ghost c = comps@[i as int]@;
        assert(rel.take(i - start + 1) == before.push(c));
        proof {
            before.lemma_filter_push(c, |c: Seq<char>| visible(c));
        }
        let s = comps[i].as_str();
        let vis = s.unicode_len() > 0 && !starts_with_char(s, '.');
        if vis {
            let ghost old_segs = segments@;
            segments.push(classify_segment(s, alphabet));
            assert(segments@.map_values(|c: NodeClass| c@) =~= old_segs.map_values(|c: NodeClass| c@).push(
                classify(c, alphabet@),
            ));
        }
        i += 1;
    }
    assert(rel.take(comps@.len() - start) == rel);
    let scope = if start < comps.len() {
        Some(comps[start].clone())
    } else {
        None
    };
    ParsedPath { segments, scope, is_leaf: is_file }
}

} // verus!
