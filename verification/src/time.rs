//! Timestamps and the trusted boundary to `chrono`.
//!
//! A creation time is modelled as the number of seconds between the civil
//! (naive) date-time written in the report and the Unix epoch.  Only the
//! textual parsing of that date-time is delegated to `chrono`; everything
//! that consumes the resulting number is verified.

use vstd::prelude::*;

verus! {

/// The date-time value denoted by `s` under the fixed report format
/// `YYYY-MM-DD HH:MM:SS ±ZZZZ`, as seconds since the Unix epoch of the civil
/// time as written (the offset must be present but is not applied), or `None`
/// if `s` does not conform to the format.  The value is a function of the
/// characters alone.
pub uninterp spec fn creation_time_of(s: Seq<char>) -> Option<i64>;

/// Declares `chrono`'s parse error so that values of it can be carried
/// through the library's own error type; the value stays opaque.
#[verifier::external_type_specification]
#[verifier::external_body]
pub struct ExChronoParseError(chrono::ParseError);

/// Relies on `chrono::NaiveDateTime::parse_from_str` with the fixed format
/// `"%Y-%m-%d %H:%M:%S %z"`, which parses the civil date-time as written
/// without applying the offset, and on `NaiveDateTime::and_utc` composed with
/// `DateTime::timestamp`, a pure arithmetic conversion of that civil time to
/// seconds since the Unix epoch.  All three depend on their arguments alone.
#[verifier::external_body]
pub(crate) fn parse_creation_time(s: &str) -> (r: Result<i64, chrono::ParseError>)
    ensures
        r matches Ok(t) ==> creation_time_of(s@) == Some(t),
        r is Err ==> creation_time_of(s@) is None,
{
    chrono::NaiveDateTime::parse_from_str(s, "%Y-%m-%d %H:%M:%S %z").map(|t| t.and_utc().timestamp())
}

} // verus!
