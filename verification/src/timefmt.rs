//! RFC 3339 timestamps, printed and parsed by `chrono`.

use vstd::prelude::*;

verus! {

/// The RFC 3339 text for an instant given in milliseconds since the Unix
/// epoch, where the calendar can hold it.
pub uninterp spec fn rfc3339_text(millis: i64) -> Option<Seq<char>>;

/// The instant, in milliseconds since the Unix epoch, that an RFC 3339 text
/// denotes.
pub uninterp spec fn rfc3339_millis(text: Seq<char>) -> Option<i64>;

/// Calls `chrono::DateTime::from_timestamp_millis` and prints the result
/// with `DateTime::to_rfc3339`. Nothing is claimed beyond the name of the
/// result.
#[verifier::external_body]
pub(crate) fn format_rfc3339(millis: i64) -> (out: Option<String>)
    ensures
        out.is_some() == rfc3339_text(millis).is_some(),
        out.is_some() ==> out.unwrap()@ == rfc3339_text(millis).unwrap(),
{
    chrono::DateTime::from_timestamp_millis(millis).map(|instant| instant.to_rfc3339())
}

/// Calls `chrono::DateTime::parse_from_rfc3339` and reads the result with
/// `DateTime::timestamp_millis`. Nothing is claimed beyond the name of the
/// result.
#[verifier::external_body]
pub(crate) fn parse_rfc3339(text: &str) -> (out: Option<i64>)
    ensures
        out == rfc3339_millis(text@),
{
    chrono::DateTime::parse_from_rfc3339(text).ok().map(|instant| instant.timestamp_millis())
}

} // verus!
