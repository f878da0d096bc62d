//! Password hashing, carried out by the `crypto` crate's PBKDF2 routines.
//!
//! Hashing salts from the operating system's randomness, so nothing can be
//! promised about the exact string it returns beyond its stamp; checking a
//! password against a stored hash re-derives the key from the two arguments
//! alone, and that result gets a name that the account contracts speak of.
//!
//! The check routine is not total: it parses an iteration count out of the
//! hash and panics on a count of zero. The contracts here admit only hashes
//! that cannot reach that panic — the library's own stamps, whose count
//! field encodes 10 000, and strings that fail the format parse before the
//! count is read.

use vstd::prelude::*;

verus! {

/// The string opens like a PBKDF2 hash: `$rpbkdf2$0$`. Only such strings
/// ever reach the iteration-count parse of the check routine; anything
/// else fails the format check first and counts as no match.
pub open spec fn rpbkdf2_prefix(h: Seq<char>) -> bool {
    h.len() >= 11 && h.subrange(0, 11) == "$rpbkdf2$0$"@
}

/// The stamp of this library's own hashes: what pbkdf2_simple writes for
/// an iteration count of 10 000 — `$rpbkdf2$0$`, the count field
/// `AAAnEA==` (10 000 big-endian, base64), then a 16-byte salt and a
/// 32-byte key in base64, 90 characters in all.
pub open spec fn stored_hash_format(h: Seq<char>) -> bool {
    h.len() == 90 && h.subrange(0, 20) == "$rpbkdf2$0$AAAnEA==$"@
}

/// The hashes the check routine handles without panicking: the library's
/// own stamps, whose parsed iteration count is 10 000, and strings whose
/// format parse fails before an iteration count is read.
pub open spec fn checkable_hash(h: Seq<char>) -> bool {
    stored_hash_format(h) || !rpbkdf2_prefix(h)
}

/// Whether `password` re-derives the key encoded in `hashed`: the result of
/// the PBKDF2 check, a function of the two arguments alone.
pub uninterp spec fn pbkdf2_matches(password: Seq<char>, hashed: Seq<char>) -> bool;

/// Relies on crypto::pbkdf2::pbkdf2_simple with 10 000 iterations. The hash
/// is salted from operating-system randomness, so two calls on one password
/// differ; what is stated is the fixed stamp of the output — the format
/// marker, the count field for 10 000, and the 90-character length from the
/// 16-byte salt and 32-byte key. A failure to read randomness comes back as
/// the error's text.
#[verifier::external_body]
pub(crate) fn pbkdf2_hash(password: &str) -> (r: Result<String, String>)
    ensures
        r matches Ok(h) ==> stored_hash_format(h@),
{
    match crypto::pbkdf2::pbkdf2_simple(password, 10_000) {
        Ok(h) => Ok(h),
        Err(e) => Err(format!("{}", e)),
    }
}

/// Relies on crypto::pbkdf2::pbkdf2_check: it re-derives the key from the
/// password and the salt and count encoded in `hashed`, a computation on
/// the two arguments alone. A `hashed` that fails the format parse is an
/// error, which counts as no match. The routine panics on a parsed
/// iteration count of zero, so only hashes in the admitted domain — the
/// library's own stamps, or strings rejected before the count is parsed —
/// may be handed to it.
#[verifier::external_body]
pub(crate) fn pbkdf2_verify(password: &str, hashed: &str) -> (r: bool)
    requires
        checkable_hash(hashed@),
    ensures
        r == pbkdf2_matches(password@, hashed@),
        !rpbkdf2_prefix(hashed@) ==> r == false,
{
    crypto::pbkdf2::pbkdf2_check(password, hashed).unwrap_or(false)
}

} // verus!
