//! Character-level string helpers shared by the engine: equality, ordering,
//! prefixes, decimal rendering and parsing, and joining path segments.
use vstd::prelude::*;

verus! {

// ---------------------------------------------------------------------------
// std wrappers
// ---------------------------------------------------------------------------

/// `String::push`: appends one character to the string.
#[verifier::external_body]
pub(crate) fn push_char(s: &mut String, c: char)
    ensures
        final(s)@ == old(s)@.push(c),
{
    s.push(c);
}

// ---------------------------------------------------------------------------
// Conversions between strings and character vectors
// ---------------------------------------------------------------------------

/// The characters of `s`, in order.
pub fn chars_of(s: &str) -> (v: Vec<char>)
    ensures
        v@ == s@,
{
    let mut v: Vec<char> = Vec::new();
    let n = s.unicode_len();
    let mut i: usize = 0;
    while i < n
        invariant
            n == s@.len(),
            i <= n,
            v@ == s@.take(i as int),
        decreases n - i,
    {
        v.push(s.get_char(i));
        assert(s@.take(i + 1) == s@.take(i as int).push(s@[i as int]));
        i += 1;
    }
    assert(s@.take(n as int) == s@);
    v
}

/// A string made of the characters `cs`.
pub fn string_of(cs: &[char]) -> (s: String)
    ensures
        s@ == cs@,
{
    let mut s = String::new();
    let mut i: usize = 0;
    while i < cs.len()
        invariant
            i <= cs@.len(),
            s@ == cs@.take(i as int),
        decreases cs@.len() - i,
    {
        push_char(&mut s, cs[i]);
        assert(cs@.take(i + 1) == cs@.take(i as int).push(cs@[i as int]));
        i += 1;
    }
    assert(cs@.take(cs@.len() as int) == cs@);
    s
}

/// A copy of `s` as an owned string.
pub fn owned(s: &str) -> (r: String)
    ensures
        r@ == s@,
{
    s.to_owned()
}

/// `a` followed by `b`.
pub fn concat(a: &str, b: &str) -> (r: String)
    ensures
        r@ == a@ + b@,
{
    let mut r = a.to_owned();
    r.append(b);
    r
}

/// `a`, `b` and `c` one after the other.
pub fn concat3(a: &str, b: &str, c: &str) -> (r: String)
    ensures
        r@ == a@ + b@ + c@,
{
    let mut r = a.to_owned();
    r.append(b);
    r.append(c);
    r
}

/// Four pieces one after the other.
pub fn concat4(a: &str, b: &str, c: &str, d: &str) -> (r: String)
    ensures
        r@ == a@ + b@ + c@ + d@,
{
    let mut r = a.to_owned();
    r.append(b);
    r.append(c);
    r.append(d);
    r
}

/// Six pieces one after the other.
pub fn concat6(a: &str, b: &str, c: &str, d: &str, e: &str, f: &str) -> (r: String)
    ensures
        r@ == a@ + b@ + c@ + d@ + e@ + f@,
{
    let mut r = a.to_owned();
    r.append(b);
    r.append(c);
    r.append(d);
    r.append(e);
    r.append(f);
    r
}

/// Five pieces one after the other.
pub fn concat5(a: &str, b: &str, c: &str, d: &str, e: &str) -> (r: String)
    ensures
        r@ == a@ + b@ + c@ + d@ + e@,
{
    let mut r = a.to_owned();
    r.append(b);
    r.append(c);
    r.append(d);
    r.append(e);
    r
}

// ---------------------------------------------------------------------------
// Equality and prefixes
// ---------------------------------------------------------------------------

/// Whether two character slices are equal.
pub fn chars_eq(a: &[char], b: &[char]) -> (r: bool)
    ensures
        r == (a@ == b@),
{
    if a.len() != b.len() {
        return false;
    }
    let mut i: usize = 0;
    while i < a.len()
        invariant
            a@.len() == b@.len(),
            i <= a@.len(),
            forall|j: int| 0 <= j < i ==> a@[j] == b@[j],
        decreases a@.len() - i,
    {
        if a[i] != b[i] {
            return false;
        }
        i += 1;
    }
    assert(a@ =~= b@);
    true
}

/// Whether two strings are equal, character for character.
pub fn str_eq(a: &str, b: &str) -> (r: bool)
    ensures
        r == (a@ == b@),
{
    let x = chars_of(a);
    let y = chars_of(b);
    chars_eq(x.as_slice(), y.as_slice())
}

/// `p` is a prefix of `s`.
pub open spec fn is_prefix<A>(p: Seq<A>, s: Seq<A>) -> bool {
    p.len() <= s.len() && s.subrange(0, p.len() as int) == p
}

/// Whether `s` starts with `p`.
pub fn str_starts_with(s: &str, p: &str) -> (r: bool)
    ensures
        r == is_prefix(p@, s@),
{
    let x = chars_of(s);
    let y = chars_of(p);
    if y.len() > x.len() {
        return false;
    }
    let mut i: usize = 0;
    while i < y.len()
        invariant
            x@ == s@,
            y@ == p@,
            y@.len() <= x@.len(),
            i <= y@.len(),
            forall|j: int| 0 <= j < i ==> x@[j] == y@[j],
        decreases y@.len() - i,
    {
        if x[i] != y[i] {
            assert(x@.subrange(0, y@.len() as int)[i as int] == x@[i as int]);
            assert(x@.subrange(0, y@.len() as int) != y@);
            return false;
        }
        i += 1;
    }
    assert(x@.subrange(0, y@.len() as int) =~= y@);
    true
}

/// Whether the first character of `s` is `c`.
pub fn starts_with_char(s: &str, c: char) -> (r: bool)
    ensures
        r == (s@.len() > 0 && s@[0] == c),
{
    let mut it = s.chars();
    match it.next() {
        Some(d) => d == c,
        None => false,
    }
}

/// `s` holds the character `c` somewhere.
pub fn str_contains_char(s: &str, c: char) -> (r: bool)
    ensures
        r == s@.contains(c),
{
    let v = chars_of(s);
    let mut i: usize = 0;
    while i < v.len()
        invariant
            v@ == s@,
            i <= v@.len(),
            forall|j: int| 0 <= j < i ==> v@[j] != c,
        decreases v@.len() - i,
    {
        if v[i] == c {
            assert(s@[i as int] == c);
            return true;
        }
        i += 1;
    }
    false
}

/// `s` without its first character (empty when `s` is empty).
pub fn drop_first_char(s: &str) -> (r: String)
    ensures
        s@.len() > 0 ==> r@ == s@.drop_first(),
        s@.len() == 0 ==> r@ == s@,
{
    let v = chars_of(s);
    if v.len() == 0 {
        return String::new();
    }
    let mut out = String::new();
    let mut i: usize = 1;
    while i < v.len()
        invariant
            v@ == s@,
            1 <= i <= v@.len(),
            out@ == v@.subrange(1, i as int),
        decreases v@.len() - i,
    {
        push_char(&mut out, v[i]);
        assert(v@.subrange(1, i + 1) == v@.subrange(1, i as int).push(v@[i as int]));
        i += 1;
    }
    out
}

// ---------------------------------------------------------------------------
// Ordering of names: lexicographic by code point (the order of a BTreeMap of
// strings, since UTF-8 preserves code-point order)
// ---------------------------------------------------------------------------

/// `a` comes strictly before `b`.
pub open spec fn seq_lt(a: Seq<char>, b: Seq<char>) -> bool
    decreases a.len(),
{
    if a.len() == 0 {
        b.len() > 0
    } else if b.len() == 0 {
        false
    } else if a[0] != b[0] {
        (a[0] as int) < (b[0] as int)
    } else {
        seq_lt(a.drop_first(), b.drop_first())
    }
}

/// No name comes before itself.
pub proof fn lemma_seq_lt_irreflexive(a: Seq<char>)
    ensures
        !seq_lt(a, a),
    decreases a.len(),
{
    if a.len() > 0 {
        lemma_seq_lt_irreflexive(a.drop_first());
    }
}

/// Of two different names, one comes first.
pub proof fn lemma_seq_lt_total(a: Seq<char>, b: Seq<char>)
    ensures
        a != b ==> seq_lt(a, b) || seq_lt(b, a),
    decreases a.len(),
{
    if a.len() > 0 && b.len() > 0 && a[0] == b[0] {
        lemma_seq_lt_total(a.drop_first(), b.drop_first());
        if a.drop_first() == b.drop_first() {
            assert(a =~= seq![a[0]] + a.drop_first());
            assert(b =~= seq![b[0]] + b.drop_first());
        }
    } else if a.len() == 0 && b.len() == 0 {
        assert(a =~= b);
    } else if a.len() > 0 && b.len() > 0 {
        assert(a[0] as int != b[0] as int);
    }
}

/// The order is asymmetric.
pub proof fn lemma_seq_lt_asymmetric(a: Seq<char>, b: Seq<char>)
    ensures
        seq_lt(a, b) ==> !seq_lt(b, a),
    decreases a.len(),
{
    if a.len() > 0 && b.len() > 0 && a[0] == b[0] {
        lemma_seq_lt_asymmetric(a.drop_first(), b.drop_first());
    }
}

/// The order is transitive.
pub proof fn lemma_seq_lt_transitive(a: Seq<char>, b: Seq<char>, c: Seq<char>)
    requires
        seq_lt(a, b),
        seq_lt(b, c),
    ensures
        seq_lt(a, c),
    decreases a.len(),
{
    if a.len() > 0 && b.len() > 0 && c.len() > 0 && a[0] == b[0] && b[0] == c[0] {
        lemma_seq_lt_transitive(a.drop_first(), b.drop_first(), c.drop_first());
    }
}

/// Whether `a` comes strictly before `b`.
pub fn chars_lt(a: &[char], b: &[char]) -> (r: bool)
    ensures
        r == seq_lt(a@, b@),
{
    let mut i: usize = 0;
    assert(a@.skip(0) == a@);
    assert(b@.skip(0) == b@);
    while i < a.len() && i < b.len()
        invariant
            i <= a@.len(),
            i <= b@.len(),
            a@.subrange(0, i as int) == b@.subrange(0, i as int),
            seq_lt(a@, b@) == seq_lt(a@.skip(i as int), b@.skip(i as int)),
        decreases a@.len() - i,
    {
        if a[i] != b[i] {
            return a[i] < b[i];
        }
        assert(a@.skip(i as int).drop_first() == a@.skip(i + 1));
        assert(b@.skip(i as int).drop_first() == b@.skip(i + 1));
        assert(a@.subrange(0, i + 1) == a@.subrange(0, i as int).push(a@[i as int]));
        assert(b@.subrange(0, i + 1) == b@.subrange(0, i as int).push(b@[i as int]));
        i += 1;
    }
    i < b.len()
}

/// Whether the string `a` comes strictly before `b`.
pub fn str_lt(a: &str, b: &str) -> (r: bool)
    ensures
        r == seq_lt(a@, b@),
{
    let x = chars_of(a);
    let y = chars_of(b);
    chars_lt(x.as_slice(), y.as_slice())
}

// ---------------------------------------------------------------------------
// Decimal numbers
// ---------------------------------------------------------------------------

/// The decimal digit character for `d` (0..=9).
pub open spec fn digit_char(d: nat) -> char {
    if d == 0 { '0' }
    else if d == 1 { '1' }
    else if d == 2 { '2' }
    else if d == 3 { '3' }
    else if d == 4 { '4' }
    else if d == 5 { '5' }
    else if d == 6 { '6' }
    else if d == 7 { '7' }
    else if d == 8 { '8' }
    else { '9' }
}

/// The decimal rendering of `n`, without sign or leading zeros.
pub open spec fn decimal(n: nat) -> Seq<char>
    decreases n,
{
    if n < 10 {
        seq![digit_char(n)]
    } else {
        decimal(n / 10).push(digit_char(n % 10))
    }
}

fn digit_to_char(d: u64) -> (c: char)
    requires
        d < 10,
    ensures
        c == digit_char(d as nat),
{
    if d == 0 { '0' }
    else if d == 1 { '1' }
    else if d == 2 { '2' }
    else if d == 3 { '3' }
    else if d == 4 { '4' }
    else if d == 5 { '5' }
    else if d == 6 { '6' }
    else if d == 7 { '7' }
    else if d == 8 { '8' }
    else { '9' }
}

/// The decimal rendering of `n` (as `n.to_string()` writes it).
pub fn u64_to_string(n: u64) -> (s: String)
    ensures
        s@ == decimal(n as nat),
    decreases n,
{
    if n < 10 {
        let mut s = String::new();
        push_char(&mut s, digit_to_char(n));
        s
    } else {
        let mut s = u64_to_string(n / 10);
        push_char(&mut s, digit_to_char(n % 10));
        s
    }
}

/// Whether `c` is an ASCII decimal digit.
pub open spec fn is_digit(c: char) -> bool {
    '0' <= c <= '9'
}

/// The value of the digit character `c`.
pub open spec fn digit_value(c: char) -> nat {
    (c as int - '0' as int) as nat
}

/// The value of a string of decimal digits.
pub open spec fn digits_value(s: Seq<char>) -> nat
    decreases s.len(),
{
    if s.len() == 0 {
        0
    } else {
        digits_value(s.drop_last()) * 10 + digit_value(s.last())
    }
}

/// The digits that a decimal parse reads: the string without one leading `+`.
pub open spec fn unsigned_body(s: Seq<char>) -> Seq<char> {
    if s.len() > 0 && s[0] == '+' { s.drop_first() } else { s }
}

/// What parsing `s` as an unsigned integer no larger than `max` gives: an
/// optional `+`, then at least one decimal digit and nothing else, of value at
/// most `max` (the rule of `str::parse` for unsigned integer types).
pub open spec fn parse_unsigned(s: Seq<char>, max: nat) -> Option<nat> {
    let body = unsigned_body(s);
    if body.len() > 0 && (forall|i: int| 0 <= i < body.len() ==> is_digit(#[trigger] body[i]))
        && digits_value(body) <= max {
        Some(digits_value(body))
    } else {
        None
    }
}

proof fn lemma_digits_value_monotone(s: Seq<char>, i: int)
    requires
        0 <= i <= s.len(),
    ensures
        digits_value(s.take(i)) <= digits_value(s),
    decreases s.len() - i,
{
    if i < s.len() {
        lemma_digits_value_monotone(s, i + 1);
        assert(s.take(i + 1).drop_last() == s.take(i));
    } else {
        assert(s.take(i) == s);
    }
}

fn char_digit(c: char) -> (d: u64)
    requires
        is_digit(c),
    ensures
        d as nat == digit_value(c),
        d < 10,
{
    (c as u32 - '0' as u32) as u64
}

/// Parse `s` as an unsigned decimal number no larger than `max`.
pub fn parse_unsigned_str(s: &str, max: u64) -> (r: Option<u64>)
    ensures
        match r {
            Some(v) => parse_unsigned(s@, max as nat) == Some(v as nat),
            None => parse_unsigned(s@, max as nat) is None,
        },
{
    let all = chars_of(s);
    let start: usize = if all.len() > 0 && all[0] == '+' { 1 } else { 0 };
    let ghost body = unsigned_body(s@);
    assert(body == all@.subrange(start as int, all@.len() as int));
    if start >= all.len() {
        return None;
    }
    let mut i: usize = start;
    while i < all.len()
        invariant
            start <= i <= all@.len(),
            body == all@.subrange(start as int, all@.len() as int),
            body == unsigned_body(s@),
            forall|j: int| start <= j < i ==> is_digit(#[trigger] all@[j]),
        decreases all@.len() - i,
    {
        if !('0' <= all[i] && all[i] <= '9') {
            assert(body[i - start] == all@[i as int]);
            assert(!is_digit(body[i - start]));
            return None;
        }
        i += 1;
    }
    assert(forall|j: int| 0 <= j < body.len() ==> is_digit(#[trigger] body[j])) by {
        assert forall|j: int| 0 <= j < body.len() implies is_digit(#[trigger] body[j]) by {
            assert(body[j] == all@[start + j]);
        }
    }
    let mut v: u64 = 0;
    let mut k: usize = start;
    while k < all.len()
        invariant
            start <= k <= all@.len(),
            body == all@.subrange(start as int, all@.len() as int),
            body == unsigned_body(s@),
            forall|j: int| 0 <= j < body.len() ==> is_digit(#[trigger] body[j]),
            v as nat == digits_value(body.take(k - start)),
            v <= max,
        decreases all@.len() - k,
    {
        let ghost pre = body.take(k - start);
        assert(body.take(k - start + 1).drop_last() == pre);
        assert(body.take(k - start + 1).last() == all@[k as int]);
        assert(is_digit(body[k - start]));
        let d = char_digit(all[k]);
        let next: Option<u64> = match v.checked_mul(10) {
            Some(t) => t.checked_add(d),
            None => None,
        };
        assert(digits_value(body.take(k - start + 1)) == v * 10 + d);
        match next {
            Some(u) => {
                if u > max {
                    proof {
                        lemma_digits_value_monotone(body, k - start + 1);
                    }
                    return None;
                }
                v = u;
            },
            None => {
                proof {
                    lemma_digits_value_monotone(body, k - start + 1);
                }
                return None;
            },
        }
        k += 1;
    }
    assert(body.take(body.len() as int) == body);
    Some(v)
}

// ---------------------------------------------------------------------------
// Joining segments
// ---------------------------------------------------------------------------

/// The segments `parts` joined by `sep`.
pub open spec fn join_seq(parts: Seq<Seq<char>>, sep: Seq<char>) -> Seq<char>
    decreases parts.len(),
{
    if parts.len() == 0 {
        seq![]
    } else if parts.len() == 1 {
        parts[0]
    } else {
        join_seq(parts.drop_last(), sep) + sep + parts.last()
    }
}

/// The views of a slice of string slices.
pub open spec fn strs_view(v: Seq<&str>) -> Seq<Seq<char>> {
    v.map_values(|s: &str| s@)
}

/// The views of a slice of strings.
pub open spec fn strings_view(v: Seq<String>) -> Seq<Seq<char>> {
    v.map_values(|s: String| s@)
}

/// Borrow each string of `v` as a slice, in order.
pub fn str_refs(v: &Vec<String>) -> (r: Vec<&str>)
    ensures
        strs_view(r@) == strings_view(v@),
{
    let mut r: Vec<&str> = Vec::new();
    let mut i: usize = 0;
    while i < v.len()
        invariant
            i <= v@.len(),
            strs_view(r@) == strings_view(v@.take(i as int)),
        decreases v@.len() - i,
    {
        let ghost before = r@;
        let x = v[i].as_str();
        r.push(x);
        assert(strs_view(r@) =~= strs_view(before).push(x@));
        assert(strings_view(v@.take(i + 1)) =~= strings_view(v@.take(i as int)).push(v@[i as int]@));
        i += 1;
    }
    assert(v@.take(v@.len() as int) == v@);
    r
}

/// The segments joined by `sep`.
pub fn join_strs(parts: &[&str], sep: &str) -> (r: String)
    ensures
        r@ == join_seq(strs_view(parts@), sep@),
{
    let mut r = String::new();
    let mut i: usize = 0;
    while i < parts.len()
        invariant
            i <= parts@.len(),
            r@ == join_seq(strs_view(parts@.take(i as int)), sep@),
        decreases parts@.len() - i,
    {
        let ghost before = strs_view(parts@.take(i as int));
        assert(strs_view(parts@.take(i + 1)).drop_last() == before);
        assert(strs_view(parts@.take(i + 1)).last() == parts@[i as int]@);
        if i > 0 {
            r.append(sep);
        } else {
            assert(strs_view(parts@.take(1)).len() == 1);
        }
        r.append(parts[i]);
        i += 1;
    }
    assert(parts@.take(parts@.len() as int) == parts@);
    r
}

/// The segments joined by `sep`.
pub fn join_strings(parts: &[String], sep: &str) -> (r: String)
    ensures
        r@ == join_seq(strings_view(parts@), sep@),
{
    let mut r = String::new();
    let mut i: usize = 0;
    while i < parts.len()
        invariant
            i <= parts@.len(),
            r@ == join_seq(strings_view(parts@.take(i as int)), sep@),
        decreases parts@.len() - i,
    {
        let ghost before = strings_view(parts@.take(i as int));
        assert(strings_view(parts@.take(i + 1)).drop_last() == before);
        assert(strings_view(parts@.take(i + 1)).last() == parts@[i as int]@);
        if i > 0 {
            r.append(sep);
        } else {
            assert(strings_view(parts@.take(1)).len() == 1);
        }
        r.append(parts[i].as_str());
        i += 1;
    }
    assert(parts@.take(parts@.len() as int) == parts@);
    r
}

/// A copy of a list of strings.
pub fn clone_strings(v: &Vec<String>) -> (r: Vec<String>)
    ensures
        r@ == v@,
{
    let mut r: Vec<String> = Vec::new();
    let mut i: usize = 0;
    while i < v.len()
        invariant
            i <= v@.len(),
            r@ == v@.subrange(0, i as int),
        decreases v@.len() - i,
    {
        r.push(v[i].clone());
        assert(r@ =~= v@.subrange(0, i + 1));
        i += 1;
    }
    assert(v@.subrange(0, v@.len() as int) == v@);
    r
}

/// The elements of `s` with `x` pushed are those of `s` and `x`.
pub proof fn lemma_push_to_set<A>(s: Seq<A>, x: A)
    ensures
        s.push(x).to_set() == s.to_set().insert(x),
{
    let t = s.push(x);
    assert forall|y: A| t.to_set().contains(y) <==> s.to_set().insert(x).contains(y) by {
        if t.contains(y) {
            let k = choose|k: int| 0 <= k < t.len() && t[k] == y;
            if k < s.len() {
                assert(s[k] == y);
                assert(s.contains(y));
            }
        }
        if y == x {
            assert(t[s.len() as int] == y);
            assert(t.contains(y));
        } else if s.contains(y) {
            let k = choose|k: int| 0 <= k < s.len() && s[k] == y;
            assert(t[k] == y);
            assert(t.contains(y));
        }
    }
    assert(t.to_set() =~= s.to_set().insert(x));
}

/// `s` without all the leading occurrences of `c`.
pub open spec fn trim_leading(s: Seq<char>, c: char) -> Seq<char>
    decreases s.len(),
{
    if s.len() > 0 && s[0] == c {
        trim_leading(s.drop_first(), c)
    } else {
        s
    }
}

/// `s` without all the leading occurrences of `c` (`trim_start_matches`).
pub fn trim_leading_char(s: &str, c: char) -> (r: String)
    ensures
        r@ == trim_leading(s@, c),
{
    let v = chars_of(s);
    let mut start: usize = 0;
    assert(v@.skip(0) == v@);
    while start < v.len() && v[start] == c
        invariant
            v@ == s@,
            start <= v@.len(),
            trim_leading(v@.skip(start as int), c) == trim_leading(s@, c),
        decreases v@.len() - start,
    {
        assert(v@.skip(start as int).drop_first() == v@.skip(start + 1));
        start += 1;
    }
    let rest = string_of_from(v.as_slice(), start);
    rest
}

/// The characters of `cs` from position `start` on, as a string.
fn string_of_from(cs: &[char], start: usize) -> (s: String)
    requires
        start <= cs@.len(),
    ensures
        s@ == cs@.skip(start as int),
{
    let mut s = String::new();
    let mut i: usize = start;
    while i < cs.len()
        invariant
            start <= i <= cs@.len(),
            s@ == cs@.subrange(start as int, i as int),
        decreases cs@.len() - i,
    {
        push_char(&mut s, cs[i]);
        assert(cs@.subrange(start as int, i + 1) == cs@.subrange(start as int, i as int).push(cs@[i as int]));
        i += 1;
    }
    assert(cs@.subrange(start as int, cs@.len() as int) == cs@.skip(start as int));
    s
}

/// The segments of `segs` from position `start` on, joined by `sep`.
pub fn join_tail(segs: &[String], start: usize, sep: &str) -> (r: String)
    requires
        start <= segs@.len(),
    ensures
        r@ == join_seq(strings_view(segs@).skip(start as int), sep@),
{
    let mut tail: Vec<String> = Vec::new();
    let mut i: usize = start;
    while i < segs.len()
        invariant
            start <= i <= segs@.len(),
            tail@ == segs@.subrange(start as int, i as int),
        decreases segs@.len() - i,
    {
        tail.push(segs[i].clone());
        assert(tail@ =~= segs@.subrange(start as int, i + 1));
        i += 1;
    }
    assert(strings_view(tail@) =~= strings_view(segs@).skip(start as int));
    join_strings(tail.as_slice(), sep)
}

/// Viewing a slice with one more element.
pub proof fn lemma_strs_view_push(v: Seq<&str>, x: &str)
    ensures
        strs_view(v.push(x)) == strs_view(v).push(x@),
{
    assert(strs_view(v.push(x)) =~= strs_view(v).push(x@));
}

/// Viewing one more element of a prefix.
pub proof fn lemma_strs_view_take(v: Seq<&str>, i: int)
    requires
        0 <= i < v.len(),
    ensures
        strs_view(v.take(i + 1)) == strs_view(v.take(i)).push(v[i]@),
{
    assert(strs_view(v.take(i + 1)) =~= strs_view(v.take(i)).push(v[i]@));
}

/// Viewing a list of strings with one more element.
pub proof fn lemma_strings_view_push(v: Seq<String>, x: String)
    ensures
        strings_view(v.push(x)) == strings_view(v).push(x@),
{
    assert(strings_view(v.push(x)) =~= strings_view(v).push(x@));
}

} // verus!
