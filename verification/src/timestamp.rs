//! Modification times, as `chrono` reads them from text.

use vstd::prelude::*;
use chrono::{Datelike, Timelike};
use crate::error::{timestamp_error, Error};

verus! {

/// A date and a time of day together with the offset from UTC in which
/// they are given.
///
/// The fields are those of the local date and time: the year, the month
/// and day counted from 1, the hour, minute and second, the fraction of
/// the second in nanoseconds, and the offset in seconds east of UTC.
#[derive(Clone, Copy, Debug, PartialEq, Eq, Structural)]
pub struct Timestamp {
    pub year: i32,
    pub month: u32,
    pub day: u32,
    pub hour: u32,
    pub minute: u32,
    pub second: u32,
    pub nanosecond: u32,
    pub offset_seconds: i32,
}

/// `chrono::format::ParseError`, the error that `chrono` reports for a text
/// that it cannot read. Nothing inside it is visible here.
#[verifier::external_type_specification]
#[verifier::external_body]
pub struct ExParseError(chrono::format::ParseError);

/// What `chrono::DateTime::parse_from_str` makes of `text` under the
/// format `pattern`: the fields of the date and time that it reads, or
/// `None` where it reports an error.
pub uninterp spec fn datetime_from_str(text: Seq<char>, pattern: Seq<char>) -> Option<Timestamp>;

/// Calls `chrono::DateTime::parse_from_str` and copies the fields of the
/// date and time that it returns.
///
/// Nothing is proved of this function. Its contract claims that the
/// outcome depends on the two texts alone, and gives that outcome the
/// name `datetime_from_str`.
#[verifier::external_body]
fn parse_from_str(text: &str, pattern: &str) -> (r: Result<Timestamp, chrono::format::ParseError>)
    ensures
        match r {
            Ok(time) => datetime_from_str(text@, pattern@) == Some(time),
            Err(_) => datetime_from_str(text@, pattern@) is None,
        },
{
    let parsed = chrono::DateTime::parse_from_str(text, pattern)?;
    Ok(
        Timestamp {
            year: parsed.year(),
            month: parsed.month(),
            day: parsed.day(),
            hour: parsed.hour(),
            minute: parsed.minute(),
            second: parsed.second(),
            nanosecond: parsed.nanosecond(),
            offset_seconds: parsed.offset().local_minus_utc(),
        },
    )
}

/// The modification time that a text denotes: a date, a time of day with
/// an optional fraction of a second, and a signed offset of four digits,
/// as in `1981-03-14 01:23:45.010101 +0800`. `None` for any other text.
pub open spec fn timestamp_spec(text: Seq<char>) -> Option<Timestamp> {
    datetime_from_str(text, "%Y-%m-%d %H:%M:%S%.f %z"@)
}

/// Reads a modification time.
pub fn parse_timestamp(text: &str) -> (r: Result<Timestamp, Error>)
    ensures
        match r {
            Ok(time) => timestamp_spec(text@) == Some(time),
            Err(e) => timestamp_spec(text@) is None && e@ == timestamp_error(
                "timestamp misformatted"@,
            ),
        },
{
    match parse_from_str(text, "%Y-%m-%d %H:%M:%S%.f %z") {
        Ok(time) => Ok(time),
        Err(_) => Err(Error::timestamp("timestamp misformatted")),
    }
}

} // verus!
