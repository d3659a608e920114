//! What the library takes on trust: the few calls and types that come from
//! elsewhere, each with the claim that is made of it.

use vstd::prelude::*;
use crate::log::well_stamped;

verus! {

/// `std::io::Error`, carried from the driver into an `OrganizerError`. Nothing
/// is claimed of what it holds.
#[verifier::external_type_specification]
#[verifier::external_body]
pub struct ExIoError(std::io::Error);

/// `serde_json::Error`, carried from the driver into an `OrganizerError`.
/// Nothing is claimed of what it holds.
#[verifier::external_type_specification]
#[verifier::external_body]
pub struct ExJsonError(serde_json::Error);

/// What `str::to_lowercase` returns for a text: its lowercase equivalent by
/// Unicode's rules, which depends on the characters alone.
pub uninterp spec fn lowercase(text: Seq<char>) -> Seq<char>;

/// Calls `str::to_lowercase`. Trusted: the result is the lowercase equivalent
/// of `text`, named `lowercase(text@)`; nothing more is claimed of it.
#[verifier::external_body]
pub(crate) fn to_lowercase(text: &str) -> (lowered: String)
    ensures
        lowered@ == lowercase(text@),
{
    text.to_lowercase()
}

/// What `chrono::DateTime::from_timestamp` followed by
/// `DateTime::to_rfc3339` gives for a count of seconds since 1970 and of
/// nanoseconds within the second: the time in UTC as RFC 3339 text, or
/// `None` where chrono has no date for the count. It depends on the two
/// numbers alone.
pub uninterp spec fn rfc3339_of(seconds: i64, nanos: u32) -> Option<Seq<char>>;

/// Calls `chrono::DateTime::from_timestamp` and, on the time it gives,
/// `DateTime::to_rfc3339`. Trusted: the result is what `rfc3339_of` names, and
/// a text that comes back has the shape that chrono's writer gives every
/// time in UTC, `well_stamped`. Neither call panics: the first gives `None`
/// for a count that is out of range, the second writes into a `String`.
#[verifier::external_body]
pub(crate) fn rfc3339_utc(seconds: i64, nanos: u32) -> (stamp: Option<String>)
    ensures
        stamp is Some <==> rfc3339_of(seconds, nanos) is Some,
        stamp is Some ==> Some(stamp->0@) == rfc3339_of(seconds, nanos),
        stamp is Some ==> well_stamped(stamp->0@),
{
    match chrono::DateTime::from_timestamp(seconds, nanos) {
        Some(time) => Some(time.to_rfc3339()),
        None => None,
    }
}

} // verus!
