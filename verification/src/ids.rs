//! File and submission identifiers (UUIDs, held as `u128`) and the clock.

use vstd::prelude::*;
use crate::model::Timestamp;

verus! {

/// What `uuid::Uuid::parse_str` gives for a text, as the `u128` of the
/// identifier; `None` where the text is refused.
pub uninterp spec fn uuid_parse(s: Seq<char>) -> Option<u128>;

/// The lower-case hexadecimal digit for `n < 16`.
pub open spec fn hex_digit(n: int) -> char {
    if n < 10 {
        (n + 48) as char
    } else {
        (n + 87) as char
    }
}

/// The hexadecimal digit of `id` at position `d`, counting from the most
/// significant of its 32 digits.
pub open spec fn nibble(id: u128, d: int) -> int {
    (id as int / vstd::arithmetic::power::pow(16, (31 - d) as nat)) % 16
}

/// The hyphenated lower-case form `xxxxxxxx-xxxx-xxxx-xxxx-xxxxxxxxxxxx`.
pub open spec fn hyphenated(id: u128) -> Seq<char> {
    Seq::new(
        36,
        |k: int|
            if k == 8 || k == 13 || k == 18 || k == 23 {
                '-'
            } else {
                let d = if k < 8 {
                    k
                } else if k < 13 {
                    k - 1
                } else if k < 18 {
                    k - 2
                } else if k < 23 {
                    k - 3
                } else {
                    k - 4
                };
                hex_digit(nibble(id, d))
            },
    )
}

/// Calls `uuid::Uuid::parse_str`; the outcome is named by `uuid_parse`
/// over the text (the accepted layouts are not restated here).
#[verifier::external_body]
pub fn parse_uuid(s: &str) -> (r: Option<u128>)
    ensures
        r == uuid_parse(s@),
{
    match uuid::Uuid::parse_str(s) {
        Ok(u) => Some(u.as_u128()),
        Err(_) => None,
    }
}

/// Calls `Display` of `uuid::Uuid` (through `to_string`): the hyphenated
/// lower-case form, which `uuid::Uuid::parse_str` reads back as the same
/// identifier.
#[verifier::external_body]
pub fn uuid_text(id: u128) -> (r: String)
    ensures
        r@ == hyphenated(id),
        uuid_parse(r@) == Some(id),
{
    uuid::Uuid::from_u128(id).to_string()
}

/// Calls `uuid::Uuid::new_v4`: a random identifier with the version field
/// set to 4 and the variant field to the RFC 9562 one. Nothing else is said
/// of the value; it panics only if the system has no randomness to give.
#[verifier::external_body]
pub fn new_uuid_v4() -> (r: u128)
    ensures
        (r >> 76u128) & 15u128 == 4,
        (r >> 62u128) & 3u128 == 2,
{
    uuid::Uuid::new_v4().as_u128()
}

/// Calls `chrono::Utc::now`: the current time, which is after the epoch and
/// has fewer than a billion nanoseconds past its second. Nothing else is
/// said of it; it panics if the system clock reads before the epoch.
#[verifier::external_body]
pub fn now() -> (r: Timestamp)
    ensures
        r.secs >= 0,
        r.nanos < 1_000_000_000,
{
    let t = chrono::Utc::now();
    Timestamp { secs: t.timestamp(), nanos: t.timestamp_subsec_nanos() }
}

} // verus!
