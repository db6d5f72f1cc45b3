//! The calendar: seconds since the Unix epoch as a date and time in UTC.
//!
//! The conversion is `chrono`'s. Nothing in this file is proved.

use chrono::DateTime;
use vstd::prelude::*;

verus! {

/// The instant `seconds` after the Unix epoch (before it, if negative) in
/// UTC, written as `YYYY-MM-DDTHH:MM:SSZ`; `None` where the instant lies
/// outside the dates that the calendar represents.
pub uninterp spec fn utc_date_time(seconds: i64) -> Option<Seq<char>>;

/// `DateTime::from_timestamp` with no nanoseconds, then `DateTime::format`
/// with the pattern `%Y-%m-%dT%H:%M:%SZ`.
#[verifier::external_body]
pub(crate) fn format_utc(seconds: i64) -> (text: Option<String>)
    ensures
        text is Some <==> utc_date_time(seconds) is Some,
        text matches Some(t) ==> utc_date_time(seconds) == Some(t@),
{
    match DateTime::from_timestamp(seconds, 0) {
        Some(instant) => Some(instant.format("%Y-%m-%dT%H:%M:%SZ").to_string()),
        None => None,
    }
}

} // verus!
