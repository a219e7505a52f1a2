//! Dates and times read with chrono.

use vstd::prelude::*;
use crate::order::Instant;
use crate::text::decimal;
use chrono::{Datelike, Timelike};

verus! {

#[verifier::external_type_specification]
#[verifier::external_body]
pub struct ExChronoParseError(chrono::ParseError);

/// Whether chrono's `NaiveDate::parse_from_str(text, "%Y-%m-%d")` accepts
/// `text`.
pub uninterp spec fn ymd_date_accepted(text: Seq<char>) -> bool;

/// What chrono's `DateTime::parse_from_rfc3339(text)` reads from `text`,
/// taken in UTC: the Unix timestamp in seconds, the nanoseconds within the
/// second, and the UTC year, month, day, hour, minute and second.
pub uninterp spec fn rfc3339_utc(text: Seq<char>) -> Option<(i64, u32, i32, u32, u32, u32, u32, u32)>;

/// Calls chrono's `NaiveDate::parse_from_str` with the format `%Y-%m-%d`;
/// claims only that the result is whether it succeeded.
#[verifier::external_body]
pub(crate) fn is_ymd_date(text: &str) -> (r: bool)
    ensures
        r == ymd_date_accepted(text@),
{
    chrono::NaiveDate::parse_from_str(text, "%Y-%m-%d").is_ok()
}

/// A moment read from an RFC 3339 timestamp, with its UTC calendar fields.
#[derive(Clone, Copy, Debug)]
pub struct UtcMoment {
    pub instant: Instant,
    pub year: i32,
    pub month: u32,
    pub day: u32,
    pub hour: u32,
    pub minute: u32,
    pub second: u32,
}

impl UtcMoment {
    pub open spec fn fields(self) -> (i64, u32, i32, u32, u32, u32, u32, u32) {
        (
            self.instant.secs,
            self.instant.nanos,
            self.year,
            self.month,
            self.day,
            self.hour,
            self.minute,
            self.second,
        )
    }
}

/// Calls chrono's `DateTime::parse_from_rfc3339` and reads the result in UTC
/// (`with_timezone(&Utc)`): its `timestamp()`, `nanosecond()`, `year()`,
/// `month()`, `day()`, `hour()`, `minute()` and `second()`. Claims that the
/// result is the named `rfc3339_utc` of the text, and the ranges that
/// chrono documents for the calendar fields (the nanoseconds reach past one
/// billion only within a leap second).
#[verifier::external_body]
pub(crate) fn parse_rfc3339(text: &str) -> (r: Result<UtcMoment, chrono::ParseError>)
    ensures
        r is Ok <==> rfc3339_utc(text@) is Some,
        r matches Ok(m) ==> rfc3339_utc(text@) == Some(m.fields()),
        r matches Ok(m) ==> {
            &&& 1 <= m.month <= 12
            &&& 1 <= m.day <= 31
            &&& m.hour < 24
            &&& m.minute < 60
            &&& m.second < 60
            &&& m.instant.nanos < 2_000_000_000
        },
{
    let parsed = chrono::DateTime::parse_from_rfc3339(text)?.with_timezone(&chrono::Utc);
    Ok(UtcMoment {
        instant: Instant { secs: parsed.timestamp(), nanos: parsed.nanosecond() },
        year: parsed.year(),
        month: parsed.month(),
        day: parsed.day(),
        hour: parsed.hour(),
        minute: parsed.minute(),
        second: parsed.second(),
    })
}

/// The decimal digits of `n`, zero-padded on the left to `width` digits.
pub open spec fn zero_padded(n: nat, width: nat) -> Seq<char> {
    let digits = decimal(n);
    if digits.len() >= width {
        digits
    } else {
        Seq::new((width - digits.len()) as nat, |i: int| '0') + digits
    }
}

/// A year as chrono's `%Y` writes it: zero-padded to four digits, with a
/// sign before years below 0 or above 9999.
pub open spec fn year_text(year: int) -> Seq<char> {
    if 0 <= year <= 9999 {
        zero_padded(year as nat, 4)
    } else if year < 0 {
        seq!['-'] + zero_padded((-year) as nat, 4)
    } else {
        seq!['+'] + zero_padded(year as nat, 4)
    }
}

/// The UTC fields of a moment (as `rfc3339_utc` gives them) written with
/// chrono's `%Y-%m-%d-%H%M%S`: the year, then the month, day, hour, minute
/// and second, each zero-padded to two digits; a leap second, whose
/// nanoseconds reach one billion, is written as second 60.
pub open spec fn file_stamp(fields: (i64, u32, i32, u32, u32, u32, u32, u32)) -> Seq<char> {
    let (secs, nanos, year, month, day, hour, minute, second) = fields;
    year_text(year as int) + seq!['-'] + zero_padded(month as nat, 2) + seq!['-']
        + zero_padded(day as nat, 2) + seq!['-'] + zero_padded(hour as nat, 2)
        + zero_padded(minute as nat, 2) + zero_padded((second + nanos / 1_000_000_000) as nat, 2)
}

/// Calls chrono's `DateTime::parse_from_rfc3339` and formats the moment in
/// UTC (`with_timezone(&Utc)`) with `format("%Y-%m-%d-%H%M%S")`. Claims that
/// it succeeds exactly when the parse does, and that the text is what
/// chrono documents for those specifiers over the UTC fields of the moment.
#[verifier::external_body]
pub(crate) fn utc_file_stamp(text: &str) -> (r: Result<String, chrono::ParseError>)
    ensures
        r is Ok <==> rfc3339_utc(text@) is Some,
        r matches Ok(s) ==> s@ == file_stamp(rfc3339_utc(text@)->0),
{
    let parsed = chrono::DateTime::parse_from_rfc3339(text)?;
    Ok(parsed.with_timezone(&chrono::Utc).format("%Y-%m-%d-%H%M%S").to_string())
}

/// Calls `to_string` on chrono's `ParseError` (its `Display`). Nothing is
/// claimed of the text.
#[verifier::external_body]
pub(crate) fn parse_error_text(error: &chrono::ParseError) -> String {
    error.to_string()
}

} // verus!
