//! Trusted declarations for the outside crates the library calls.
//!
//! Each wrapper's contract is what the named crate's source shows; the
//! wrappers are the only places the library touches outside code.

use vstd::prelude::*;

verus! {

/// Whether a pattern is a valid regular expression, as `regex::Regex::new`
/// decides it: the same pattern gives the same verdict everywhere.
pub uninterp spec fn regex_valid(pattern: Seq<char>) -> bool;

/// Whether a pattern matches a text, as `regex::Regex::is_match` decides
/// it: a function of the pattern and the text alone.
pub uninterp spec fn regex_match_of(pattern: Seq<char>, text: Seq<char>) -> bool;

/// Relies on `regex::Regex::new` and `regex::Regex::is_match`: compiling
/// succeeds exactly for valid patterns, and whether the compiled pattern
/// matches depends on the pattern and the text alone.
#[verifier::external_body]
pub(crate) fn regex_is_match(pattern: &str, text: &str) -> (r: Option<bool>)
    ensures
        r is Some <==> regex_valid(pattern@),
        r matches Some(b) ==> b == regex_match_of(pattern@, text@),
{
    match regex::Regex::new(pattern) {
        Ok(re) => Some(re.is_match(text)),
        Err(_) => None,
    }
}

/// Relies on `uuid::Uuid::new_v4` and its `Display` impl: a fresh random
/// UUID, written in the hyphenated form of exactly 36 characters.  The
/// value is random; nothing more is promised of it.
#[verifier::external_body]
pub(crate) fn fresh_uuid() -> (r: String)
    ensures
        r@.len() == 36,
{
    uuid::Uuid::new_v4().to_string()
}

} // verus!
