//! Calls into the outside crates that the chat core relies on: identifiers
//! (`uuid`), the clock (`chrono`) and random join codes (`nanoid`).
use vstd::prelude::*;

verus! {

/// The alphabet of `nanoid::alphabet::SAFE`: ASCII letters, digits, `_` and `-`.
pub open spec fn is_code_char(c: char) -> bool {
    ('a' <= c && c <= 'z') || ('A' <= c && c <= 'Z') || ('0' <= c && c <= '9') || c == '_'
        || c == '-'
}

/// The identifier that `uuid::Uuid::parse_str` reads from a text, if any.
pub uninterp spec fn uuid_parsed(s: Seq<char>) -> Option<u128>;

/// Relies on `uuid::Uuid::parse_str` and `Uuid::as_u128`: whether a text
/// names an identifier, and which, depends on the text alone.
#[verifier::external_body]
pub(crate) fn parse_uuid(s: &str) -> (r: Option<u128>)
    ensures
        r == uuid_parsed(s@),
{
    match uuid::Uuid::parse_str(s) {
        Ok(u) => Some(u.as_u128()),
        Err(_) => None,
    }
}

/// Relies on `uuid::Uuid::new_v4`: a random identifier, of which nothing is
/// promised.
#[verifier::external_body]
pub(crate) fn new_uuid() -> (r: u128) {
    uuid::Uuid::new_v4().as_u128()
}

/// Relies on `chrono::Utc::now` and `DateTime::timestamp_millis`: the current
/// time in milliseconds since the Unix epoch, of which nothing is promised.
#[verifier::external_body]
pub(crate) fn now_millis() -> (r: i64) {
    chrono::Utc::now().timestamp_millis()
}

/// Relies on `nanoid::format` with `nanoid::alphabet::SAFE`: it pushes
/// characters of the alphabet until the text holds `size` of them.
#[verifier::external_body]
pub(crate) fn random_code(size: usize) -> (r: String)
    requires
        size > 0,
    ensures
        r@.len() == size,
        forall|i: int| 0 <= i < r@.len() ==> is_code_char(#[trigger] r@[i]),
{
    nanoid::format(nanoid::rngs::default, &nanoid::alphabet::SAFE, size)
}

} // verus!
