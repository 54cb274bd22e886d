//! Event identifiers: 128-bit values written in the hyphenated UUID form.

use vstd::prelude::*;

verus! {

/// The hyphenated text that `uuid` writes for an identifier.
pub uninterp spec fn uuid_text(id: u128) -> Seq<char>;

/// The identifier that `uuid` reads from a text, if it reads one.
pub uninterp spec fn uuid_value(s: Seq<char>) -> Option<u128>;

/// Relies on `uuid::Uuid::from_u128` and the hyphenated form of `Uuid::hyphenated`:
/// the text is one of the forms that `Uuid::parse_str` documents that it reads.
#[verifier::external_body]
pub(crate) fn format_id(id: u128) -> (r: String)
    ensures
        r@ == uuid_text(id),
        uuid_value(r@) == Some(id),
{
    uuid::Uuid::from_u128(id).hyphenated().to_string()
}

/// Relies on `uuid::Uuid::parse_str` and `Uuid::as_u128`.
#[verifier::external_body]
pub(crate) fn parse_id(s: &str) -> (r: Option<u128>)
    ensures
        r == uuid_value(s@),
{
    match uuid::Uuid::parse_str(s) {
        Ok(u) => Some(u.as_u128()),
        Err(_) => None,
    }
}

} // verus!
