//! Instants as epoch milliseconds, and their RFC 3339 text form. The
//! conversions themselves are done by the `chrono` crate behind trusted
//! wrappers; both are functions of their arguments alone.

use vstd::prelude::*;

verus! {

/// The epoch milliseconds `chrono` reads from an RFC 3339 string, or
/// `None` when the string does not parse.
pub uninterp spec fn rfc3339_millis(s: Seq<u8>) -> Option<i64>;

/// The RFC 3339 text `chrono` writes for an instant in UTC; the empty
/// string for an instant out of `chrono`'s range.
pub uninterp spec fn rfc3339_of_millis(t: i64) -> Seq<u8>;

/// Relies on `chrono::DateTime::parse_from_rfc3339` and
/// `timestamp_millis`: the parsed instant depends on the string alone.
#[verifier::external_body]
pub fn iso_string_to_system_time(s: &Vec<u8>) -> (r: Option<i64>)
    ensures
        r == rfc3339_millis(s@),
{
    let text = match std::str::from_utf8(s.as_slice()) {
        Ok(t) => t,
        Err(_) => {
            return None;
        },
    };
    match chrono::DateTime::parse_from_rfc3339(text) {
        Ok(dt) => Some(dt.timestamp_millis()),
        Err(_) => None,
    }
}

/// Relies on `chrono::DateTime::from_timestamp_millis` and
/// `to_rfc3339`: the text depends on the instant alone.
#[verifier::external_body]
pub fn system_time_to_iso_string(t: i64) -> (r: Vec<u8>)
    ensures
        r@ == rfc3339_of_millis(t),
{
    match chrono::DateTime::from_timestamp_millis(t) {
        Some(dt) => dt.to_rfc3339().into_bytes(),
        None => Vec::new(),
    }
}

} // verus!
