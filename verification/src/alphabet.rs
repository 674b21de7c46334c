//! The self-describing alphabet of logic doors.
//!
//! The doors are read at boot from the names found in `hard/reserved/`; the
//! only door known without reading anything is the escape `€`.
use vstd::prelude::*;
use crate::normalize::{nfc, nfc_string};
use crate::strings::chars_of;

verus! {

/// The escape logic door `€` (U+20AC), the one hard-coded character.
pub const ESCAPE: char = '€';

/// The door that one reserved-directory entry name declares, if any: the
/// first character of the composed name, unless the name is empty or a dotfile.
pub open spec fn declared_door(name: Seq<char>) -> Option<char> {
    let n = nfc(name);
    if n.len() > 0 && n[0] != '.' { Some(n[0]) } else { None }
}

/// The doors that a list of reserved-directory entry names declares,
/// together with the escape.
pub open spec fn doors_of(names: Seq<Seq<char>>) -> Set<char> {
    Set::new(|c: char| c == ESCAPE || exists|i: int| 0 <= i < names.len() && declared_door(#[trigger] names[i]) == Some(c))
}

/// The alphabet of a reserved directory: `€` is always a door; every entry
/// that is not a dotfile makes the first character of its (NFC) name a
/// door; and no other character is one.
pub proof fn lemma_doors_come_from_names(names: Seq<Seq<char>>, i: int, c: char)
    ensures
        doors_of(names).contains('€'),
        0 <= i < names.len() && nfc(names[i]).len() > 0 && nfc(names[i])[0] != '.' ==> doors_of(names).contains(nfc(names[i])[0]),
        doors_of(names).contains(c) && c != '€' ==> exists|j: int|
            0 <= j < names.len() && nfc(#[trigger] names[j]).len() > 0 && nfc(names[j])[0] == c && c != '.',
{
    if 0 <= i < names.len() && nfc(names[i]).len() > 0 && nfc(names[i])[0] != '.' {
        assert(declared_door(names[i]) == Some(nfc(names[i])[0]));
    }
    if doors_of(names).contains(c) && c != '€' {
        let j = choose|j: int| 0 <= j < names.len() && declared_door(#[trigger] names[j]) == Some(c);
        assert(nfc(names[j]).len() > 0 && nfc(names[j])[0] == c);
    }
}

/// The set of reserved characters (logic doors).
#[derive(Debug)]
pub struct Alphabet {
    reserved: Vec<char>,
}

impl View for Alphabet {
    type V = Set<char>;

    open spec fn view(&self) -> Set<char> {
        self.doors().to_set()
    }
}

impl Clone for Alphabet {
    fn clone(&self) -> (r: Self)
        ensures
            r@ == self@,
    {
        proof {
            use_type_invariant(self);
        }
        let mut reserved: Vec<char> = Vec::new();
        let mut i: usize = 0;
        while i < self.reserved.len()
            invariant
                i <= self.reserved@.len(),
                reserved@ == self.reserved@.take(i as int),
            decreases self.reserved@.len() - i,
        {
            reserved.push(self.reserved[i]);
            assert(self.reserved@.take(i + 1) == self.reserved@.take(i as int).push(self.reserved@[i as int]));
            i += 1;
        }
        assert(self.reserved@.take(self.reserved@.len() as int) == self.reserved@);
        Alphabet { reserved }
    }
}

impl Alphabet {
    /// The doors in the order they were first declared.
    pub closed spec fn doors(&self) -> Seq<char> {
        self.reserved@
    }

    #[verifier::type_invariant]
    spec fn inv(self) -> bool {
        self.reserved@.no_duplicates() && self.reserved@.contains(ESCAPE)
    }

    /// Build the alphabet from the entry names of `hard/reserved/`: each name's
    /// first character (after NFC normalization) is a door, dotfiles are
    /// skipped, and the escape `€` is always present.
    pub fn from_names(names: &[String]) -> (a: Alphabet)
        ensures
            a@ == doors_of(crate::strings::strings_view(names@)),
    {
        let mut reserved: Vec<char> = Vec::new();
        reserved.push(ESCAPE);
        assert(reserved@ == seq![ESCAPE]);
        assert(reserved@[0] == ESCAPE);
        let ghost views = crate::strings::strings_view(names@);
        let mut i: usize = 0;
        while i < names.len()
            invariant
                i <= names@.len(),
                views == crate::strings::strings_view(names@),
                reserved@.no_duplicates(),
                reserved@.contains(ESCAPE),
                forall|c: char| reserved@.contains(c) <==> (c == ESCAPE || exists|j: int| 0 <= j < i && declared_door(#[trigger] views[j]) == Some(c)),
            decreases names@.len() - i,
        {
            let n = nfc_string(names[i].as_str());
            let cs = chars_of(n.as_str());
            assert(views[i as int] == names@[i as int]@);
            if cs.len() > 0 && cs[0] != '.' {
                let d = cs[0];
                let ghost old_r = reserved@;
                if !Self::contains(&reserved, d) {
                    reserved.push(d);
                    assert(reserved@.last() == d);
                }
                assert forall|c: char| reserved@.contains(c) <==> (old_r.contains(c) || c == d) by {
                    if old_r.contains(c) {
                        let k = choose|k: int| 0 <= k < old_r.len() && old_r[k] == c;
                        assert(reserved@[k] == c);
                    }
                    if reserved@.contains(c) && reserved@ != old_r {
                        let k = choose|k: int| 0 <= k < reserved@.len() && reserved@[k] == c;
                        if k < old_r.len() {
                            assert(old_r[k] == c);
                        }
                    }
                }
                assert(declared_door(views[i as int]) == Some(d));
                assert forall|c: char| reserved@.contains(c) <==> (c == ESCAPE || exists|j: int| 0 <= j < i + 1 && declared_door(#[trigger] views[j]) == Some(c)) by {
                    if c == d {
                        assert(declared_door(views[i as int]) == Some(c));
                    }
                    if old_r.contains(c) && c != ESCAPE {
                        let j = choose|j: int| 0 <= j < i && declared_door(#[trigger] views[j]) == Some(c);
                        assert(0 <= j < i + 1 && declared_door(views[j]) == Some(c));
                    }
                    if exists|j: int| 0 <= j < i + 1 && declared_door(#[trigger] views[j]) == Some(c) {
                        let j = choose|j: int| 0 <= j < i + 1 && declared_door(#[trigger] views[j]) == Some(c);
                        if j == i {
                            assert(c == d);
                        } else {
                            assert(old_r.contains(c));
                        }
                    }
                }
            } else {
                assert(declared_door(views[i as int]) is None);
                assert forall|c: char| reserved@.contains(c) <==> (c == ESCAPE || exists|j: int| 0 <= j < i + 1 && declared_door(#[trigger] views[j]) == Some(c)) by {
                    if exists|j: int| 0 <= j < i + 1 && declared_door(#[trigger] views[j]) == Some(c) {
                        let j = choose|j: int| 0 <= j < i + 1 && declared_door(#[trigger] views[j]) == Some(c);
                        assert(j != i);
                    }
                }
            }
            i += 1;
        }
        let a = Alphabet { reserved };
        assert(a@ =~= doors_of(views));
        a
    }

    fn contains(v: &Vec<char>, c: char) -> (r: bool)
        ensures
            r == v@.contains(c),
    {
        let mut i: usize = 0;
        while i < v.len()
            invariant
                i <= v@.len(),
                forall|j: int| 0 <= j < i ==> v@[j] != c,
            decreases v@.len() - i,
        {
            if v[i] == c {
                return true;
            }
            i += 1;
        }
        false
    }

    /// Whether `ch` is a reserved logic door.
    pub fn is_reserved(&self, ch: char) -> (r: bool)
        ensures
            r == self@.contains(ch),
    {
        Self::contains(&self.reserved, ch)
    }

    /// Whether `ch` is the escape door.
    pub fn is_escape(&self, ch: char) -> (r: bool)
        ensures
            r == (ch == ESCAPE),
    {
        ch == ESCAPE
    }

    /// The number of logic doors.
    pub fn len(&self) -> (n: usize)
        ensures
            n == self@.len(),
    {
        proof {
            use_type_invariant(self);
            self.reserved@.unique_seq_to_set();
        }
        self.reserved.len()
    }

    /// Whether the alphabet has no doors (never the case: `€` is always there).
    pub fn is_empty(&self) -> (r: bool)
        ensures
            r == (self@.len() == 0),
            !r,
    {
        proof {
            use_type_invariant(self);
            self.reserved@.unique_seq_to_set();
            assert(self@.contains(ESCAPE));
        }
        self.reserved.len() == 0
    }

    /// Every door once, in the order they were declared.
    pub fn iter(&self) -> (it: std::slice::Iter<'_, char>)
        ensures
            vstd::std_specs::slice::into_iter_elts(it) == self.doors(),
            self.doors().no_duplicates(),
            self.doors().to_set() == self@,
    {
        proof {
            use_type_invariant(self);
        }
        self.reserved.iter()
    }
}

} // verus!
