//! Unicode normalization of names (filesystems such as APFS may hand names
//! back in decomposed form; the engine compares them composed).
use unicode_normalization::UnicodeNormalization;
use vstd::prelude::*;

verus! {

/// The NFC (canonical composition) normal form of `s`, as the
/// `unicode-normalization` crate computes it.
pub uninterp spec fn nfc(s: Seq<char>) -> Seq<char>;

/// `UnicodeNormalization::nfc` collected into a string: the result is the
/// crate's NFC form of the argument (named `nfc`, since the Unicode
/// composition tables are not restated here). Stated besides: ASCII text is
/// its own NFC form (no ASCII character decomposes or composes).
#[verifier::external_body]
pub(crate) fn nfc_string(s: &str) -> (r: String)
    ensures
        r@ == nfc(s@),
        (forall|i: int| 0 <= i < s@.len() ==> (s@[i] as u32) < 128) ==> r@ == s@,
{
    s.nfc().collect::<String>()
}

} // verus!
