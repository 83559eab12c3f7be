//! Timestamps as the provider hands them out: RFC 3339 text.
//!
//! Parsing such text to an instant (seconds since the Unix epoch) is done by
//! an outside library behind a trusted wrapper; ordering two timestamp texts
//! is the ordinary lexicographic order on strings, which the stores use the
//! same way the underlying database orders its timestamp columns.

use vstd::prelude::*;

verus! {

/// The instant, in seconds since the Unix epoch, that an RFC 3339 text
/// denotes, or `None` if the text is not valid RFC 3339. The result depends
/// on the characters alone.
pub uninterp spec fn rfc3339_epoch(s: Seq<char>) -> Option<i64>;

/// Relies on chrono's `DateTime::parse_from_rfc3339` and
/// `DateTime::timestamp`: parsing is a function of the characters alone, and
/// `timestamp` returns the denoted instant in whole seconds since the epoch.
#[verifier::external_body]
pub fn parse_rfc3339_epoch(s: &str) -> (r: Option<i64>)
    ensures
        r == rfc3339_epoch(s@),
{
    match chrono::DateTime::parse_from_rfc3339(s) {
        Ok(dt) => Some(dt.timestamp()),
        Err(_) => None,
    }
}

/// Lexicographic order on character sequences: the empty sequence comes
/// first, otherwise the first differing character decides.
pub open spec fn lex_le(a: Seq<char>, b: Seq<char>) -> bool
    decreases a.len(),
{
    if a.len() == 0 {
        true
    } else if b.len() == 0 {
        false
    } else if (a[0] as u32) < (b[0] as u32) {
        true
    } else if (a[0] as u32) > (b[0] as u32) {
        false
    } else {
        lex_le(a.drop_first(), b.drop_first())
    }
}

/// Relies on `str`'s `PartialOrd`: strings order lexicographically by byte,
/// which for UTF-8 text coincides with lexicographic order of the characters.
#[verifier::external_body]
pub fn str_le(a: &str, b: &str) -> (r: bool)
    ensures
        r == lex_le(a@, b@),
{
    a <= b
}

} // verus!
