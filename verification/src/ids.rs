//! Slate identifiers in their textual form.
//!
//! Callers hand transaction identifiers across the process boundary as
//! UUID strings; the uuid crate turns them into the 128-bit values the
//! rest of the library works with, and back.

use vstd::prelude::*;

verus! {

/// What uuid's parser yields on a given string: the identifier's 128 bits
/// when the string is one of the textual UUID forms, nothing otherwise.
/// The result depends on the characters alone.
pub uninterp spec fn uuid_parse_of(s: Seq<char>) -> Option<u128>;

/// The hyphenated lower-case text of a 128-bit identifier.  The result
/// depends on the value alone.
pub uninterp spec fn uuid_text_of(n: u128) -> Seq<char>;

/// Relies on `uuid::Uuid::parse_str` and `Uuid::as_u128`: parsing a UUID
/// string is a pure function of the string, and `as_u128` reads the
/// parsed UUID's sixteen bytes big-endian.
#[verifier::external_body]
pub(crate) fn parse_slate_id(s: &str) -> (r: Option<u128>)
    ensures
        r == uuid_parse_of(s@),
{
    uuid::Uuid::parse_str(s).ok().map(|u| u.as_u128())
}

/// Relies on `uuid::Uuid::from_u128` and the `Hyphenated` formatter: the
/// hyphenated text is a pure function of the 128 bits and is 36
/// characters long.
#[verifier::external_body]
pub(crate) fn format_slate_id(n: u128) -> (r: String)
    ensures
        r@ == uuid_text_of(n),
        r@.len() == 36,
{
    uuid::Uuid::from_u128(n).hyphenated().to_string()
}

/// Renders a slate identifier in its textual UUID form.
pub fn slate_id_text(n: u128) -> (r: String)
    ensures
        r@ == uuid_text_of(n),
        r@.len() == 36,
{
    format_slate_id(n)
}

} // verus!
