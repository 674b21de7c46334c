//! Passwords: argon2id hashes in PHC format, kept as the *name* of a
//! zero-byte file below `-secret/`. A PHC string becomes a file name by
//! writing `.` for each `$`; PHC field values hold no `.`, so this is undone
//! by writing `$` for each `.`.
use argon2::password_hash::SaltString;
use argon2::{Argon2, PasswordHash, PasswordHasher, PasswordVerifier};
use vstd::prelude::*;
use crate::error::PithError;
use crate::strings::{chars_of, concat, push_char};

verus! {

#[verifier::external_type_specification]
#[verifier::external_body]
pub struct ExPasswordHashError(argon2::password_hash::Error);

/// What verifying `password` against the PHC string `phc` gives: `None`
/// when `phc` is not a PHC string, else whether argon2 accepts the password.
pub uninterp spec fn argon2_verify_outcome(password: Seq<char>, phc: Seq<char>) -> Option<bool>;

/// Hash `password` with argon2id (`Argon2::default()`) and a fresh random
/// salt (`SaltString::generate(&mut OsRng)`), as a PHC string
/// (`PasswordHasher::hash_password`, then `to_string`). The salt is random,
/// so nothing names the string itself; stated of it are what the
/// `password-hash` and `argon2` sources show: it starts with
/// `$argon2id$v=19$`, and verifying the same password against it succeeds.
/// It succeeds for every password of fewer than 2^30 characters: with the
/// default parameters and a generated salt (always valid), argon2 refuses
/// only a password longer than `MAX_PWD_LEN` (2^32 - 1) bytes, and a
/// character takes at most 4 bytes in UTF-8. The operating system's random
/// source is assumed to work (`OsRng` panics otherwise).
#[verifier::external_body]
fn argon2_hash(password: &str) -> (r: Result<String, argon2::password_hash::Error>)
    ensures
        r matches Ok(h) ==> crate::strings::is_prefix("$argon2id$v=19$"@, h@) && argon2_verify_outcome(password@, h@)
            == Some(true),
        password@.len() < 0x4000_0000 ==> r is Ok,
{
    let salt = SaltString::generate(&mut rand::rngs::OsRng);
    match Argon2::default().hash_password(password.as_bytes(), &salt) {
        Ok(h) => Ok(h.to_string()),
        Err(e) => Err(e),
    }
}

/// Parse `phc` (`PasswordHash::new`) and, when it parses, check `password`
/// against it with `Argon2::default()` (`PasswordVerifier::verify_password`,
/// any refusal counting as `false`). Stated: the outcome is the one named
/// by `argon2_verify_outcome`, a parse failure being the error.
#[verifier::external_body]
fn argon2_verify(password: &str, phc: &str) -> (r: Result<bool, argon2::password_hash::Error>)
    ensures
        match r {
            Ok(b) => argon2_verify_outcome(password@, phc@) == Some(b),
            Err(_) => argon2_verify_outcome(password@, phc@) is None,
        },
{
    match PasswordHash::new(phc) {
        Ok(parsed) => Ok(Argon2::default().verify_password(password.as_bytes(), &parsed).is_ok()),
        Err(e) => Err(e),
    }
}

/// The message of a `password_hash::Error` (its `Display`).
#[verifier::external_body]
fn error_text(e: &argon2::password_hash::Error) -> String {
    e.to_string()
}

/// Hash a password with argon2id into a PHC string. On success the string
/// starts with `$argon2id$v=19$` and the password verifies against it; it
/// succeeds for every password of fewer than 2^30 characters. A failure is
/// an authentication error whose reason starts `password hash failed: `.
pub fn hash_password(password: &str) -> (r: Result<String, PithError>)
    ensures
        match r {
            Ok(h) => crate::strings::is_prefix("$argon2id$v=19$"@, h@) && argon2_verify_outcome(password@, h@) == Some(true),
            Err(e) => e matches PithError::Auth { reason } && crate::strings::is_prefix("password hash failed: "@, reason@),
        },
        password@.len() < 0x4000_0000 ==> r is Ok,
{
    match argon2_hash(password) {
        Ok(h) => Ok(h),
        Err(e) => {
            let text = error_text(&e);
            let reason = concat("password hash failed: ", text.as_str());
            assert(reason@.subrange(0, "password hash failed: "@.len() as int) =~= "password hash failed: "@);
            Err(PithError::Auth { reason })
        },
    }
}

/// Verify a password against a PHC string: whether argon2 accepts it, or an
/// authentication error when the string is not a PHC string.
pub fn verify_password(password: &str, phc_hash: &str) -> (r: Result<bool, PithError>)
    ensures
        match r {
            Ok(b) => argon2_verify_outcome(password@, phc_hash@) == Some(b),
            Err(e) => argon2_verify_outcome(password@, phc_hash@) is None && (e matches PithError::Auth { reason }
                && crate::strings::is_prefix("invalid hash format: "@, reason@)),
        },
{
    match argon2_verify(password, phc_hash) {
        Ok(b) => Ok(b),
        Err(e) => {
            let text = error_text(&e);
            let reason = concat("invalid hash format: ", text.as_str());
            assert(reason@.subrange(0, "invalid hash format: "@.len() as int) =~= "invalid hash format: "@);
            Err(PithError::Auth { reason })
        },
    }
}

/// `s` with every `from` written as `to`.
pub open spec fn replace_char(s: Seq<char>, from: char, to: char) -> Seq<char> {
    s.map_values(|c: char| if c == from { to } else { c })
}

fn replace_all(s: &str, from: char, to: char) -> (r: String)
    ensures
        r@ == replace_char(s@, from, to),
{
    let cs = chars_of(s);
    let mut out = String::new();
    let mut i: usize = 0;
    while i < cs.len()
        invariant
            cs@ == s@,
            i <= cs@.len(),
            out@ == replace_char(cs@.take(i as int), from, to),
        decreases cs@.len() - i,
    {
        let c = if cs[i] == from { to } else { cs[i] };
        push_char(&mut out, c);
        assert(replace_char(cs@.take(i + 1), from, to) =~= replace_char(cs@.take(i as int), from, to).push(c));
        i += 1;
    }
    assert(cs@.take(cs@.len() as int) == cs@);
    out
}

/// The file name that stores a PHC string: each `$` written as `.`.
pub fn hash_to_filename(phc_hash: &str) -> (r: String)
    ensures
        r@ == replace_char(phc_hash@, '$', '.'),
{
    replace_all(phc_hash, '$', '.')
}

/// The PHC string stored in a file name: each `.` written as `$`.
pub fn filename_to_hash(filename: &str) -> (r: String)
    ensures
        r@ == replace_char(filename@, '.', '$'),
{
    replace_all(filename, '.', '$')
}

/// A file name made from a PHC string holds no `$`.
pub proof fn lemma_filename_has_no_dollar(phc: Seq<char>)
    ensures
        !replace_char(phc, '$', '.').contains('$'),
{
    let f = replace_char(phc, '$', '.');
    if f.contains('$') {
        let i = choose|i: int| 0 <= i < f.len() && f[i] == '$';
        assert(f[i] == (if phc[i] == '$' { '.' } else { phc[i] }));
    }
}

/// Decoding the file name of a PHC string gives the string back, for every
/// string without a `.` (as PHC strings are).
pub proof fn lemma_filename_roundtrip(phc: Seq<char>)
    requires
        !phc.contains('.'),
    ensures
        replace_char(replace_char(phc, '$', '.'), '.', '$') == phc,
{
    let back = replace_char(replace_char(phc, '$', '.'), '.', '$');
    assert forall|i: int| 0 <= i < phc.len() implies back[i] == phc[i] by {
        if phc[i] == '.' {
            assert(phc.contains('.'));
        }
    }
    assert(back =~= phc);
}

} // verus!
