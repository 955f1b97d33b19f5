//! Instants and calendar times, and what chrono computes of them.
//!
//! Every call into chrono stands in this file. What depends on the text and
//! the pattern alone has a name, over which the callers state their results;
//! of what depends on the time zone or the clock of the machine nothing is
//! claimed.

use vstd::prelude::*;
use chrono::Datelike;
use chrono::Timelike;
use chrono::TimeZone;

verus! {

/// A point in time as a wall clock shows it.
#[derive(Clone, Copy, Debug, PartialEq, Eq, Structural)]
pub struct CalendarTime {
    pub year: i32,
    /// 1 to 12.
    pub month: u32,
    /// 1 to 31.
    pub day: u32,
    /// 0 to 23.
    pub hour: u32,
    /// 0 to 59.
    pub minute: u32,
}

/// An instant: seconds and nanoseconds since the epoch.
#[derive(Clone, Copy, Debug, PartialEq, Eq, Structural)]
pub struct Timestamp {
    pub secs: i64,
    pub nanos: u32,
}

/// A date and time of day without a time zone, counted in seconds and
/// nanoseconds as if it were read in universal time.
#[derive(Clone, Copy, Debug, PartialEq, Eq, Structural)]
pub struct NaiveInstant {
    pub secs: i64,
    pub nanos: u32,
}

/// The error that chrono gives for a text that it cannot read.
#[verifier::external_type_specification]
#[verifier::external_body]
pub struct ExParseError(chrono::ParseError);

/// The pattern of a stamp within the current year: month, day, time of day.
pub open spec fn recent_pattern() -> Seq<char> {
    "%b %e %H:%M"@
}

/// The pattern of a stamp of another year: month, day, and the year behind
/// two blanks.
pub open spec fn dated_pattern() -> Seq<char> {
    "%b %e  %Y"@
}

/// The pattern that shows the year alone.
pub open spec fn year_pattern() -> Seq<char> {
    "%Y"@
}

/// The patterns under which this library renders a calendar time.
pub open spec fn is_render_pattern(pattern: Seq<char>) -> bool {
    pattern == recent_pattern() || pattern == dated_pattern() || pattern == year_pattern()
}

/// The text that chrono gives the calendar time of the given fields, at
/// second 0, under `pattern`; `None` where the fields are no calendar time.
pub uninterp spec fn chrono_calendar_text(
    year: int,
    month: int,
    day: int,
    hour: int,
    minute: int,
    pattern: Seq<char>,
) -> Option<Seq<char>>;

/// The date and time of day that chrono reads from `text` under `pattern`,
/// as seconds and nanoseconds; `None` where it reads none.
pub uninterp spec fn chrono_naive_instant(text: Seq<char>, pattern: Seq<char>) -> Option<
    (int, int),
>;

/// The instant that chrono reads from `text` as an RFC 3339 date and time,
/// as seconds and nanoseconds since the epoch; `None` where it reads none.
pub uninterp spec fn chrono_rfc3339_instant(text: Seq<char>) -> Option<(int, int)>;

/// Whether the calendar of chrono reaches the instant `secs` seconds and
/// `nanos` nanoseconds after the epoch: whether it has a date and a time of
/// day for it. That depends on the two numbers alone, not on a time zone.
pub uninterp spec fn chrono_reaches(secs: int, nanos: int) -> bool;

/// What chrono renders of `time` under `pattern`.
pub open spec fn calendar_text_of(time: CalendarTime, pattern: Seq<char>) -> Option<Seq<char>> {
    chrono_calendar_text(
        time.year as int,
        time.month as int,
        time.day as int,
        time.hour as int,
        time.minute as int,
        pattern,
    )
}

/// `NaiveDate::from_ymd_opt`, `NaiveDate::and_hms_opt` and
/// `NaiveDateTime::format` of chrono: the text of the calendar time with the
/// fields of `time`, at second 0, under `pattern`. The result is `None` where
/// chrono takes the fields for no date or no time of day. The text depends on
/// the fields and the pattern alone. Only the three patterns of this library
/// are admitted, which chrono can always render.
#[verifier::external_body]
pub(crate) fn calendar_text(time: &CalendarTime, pattern: &str) -> (text: Option<String>)
    requires
        is_render_pattern(pattern@),
    ensures
        match text {
            Some(t) => chrono_calendar_text(
                time.year as int,
                time.month as int,
                time.day as int,
                time.hour as int,
                time.minute as int,
                pattern@,
            ) == Some(t@),
            None => chrono_calendar_text(
                time.year as int,
                time.month as int,
                time.day as int,
                time.hour as int,
                time.minute as int,
                pattern@,
            ) is None,
        },
{
    let date = chrono::NaiveDate::from_ymd_opt(time.year, time.month, time.day)?;
    let date_time = date.and_hms_opt(time.hour, time.minute, 0)?;
    Some(date_time.format(pattern).to_string())
}

/// `NaiveDateTime::parse_from_str` of chrono: the date and time of day that
/// `text` holds under `pattern`, or chrono's error. The outcome depends on
/// the text and the pattern alone.
#[verifier::external_body]
pub(crate) fn parse_naive(text: &str, pattern: &str) -> (parsed: Result<
    NaiveInstant,
    chrono::ParseError,
>)
    ensures
        match parsed {
            Ok(naive) => chrono_naive_instant(text@, pattern@) == Some(
                (naive.secs as int, naive.nanos as int),
            ),
            Err(_) => chrono_naive_instant(text@, pattern@) is None,
        },
{
    match chrono::NaiveDateTime::parse_from_str(text, pattern) {
        Ok(date_time) => Ok(
            NaiveInstant {
                secs: date_time.and_utc().timestamp(),
                nanos: date_time.and_utc().timestamp_subsec_nanos(),
            },
        ),
        Err(error) => Err(error),
    }
}

/// `DateTime::parse_from_rfc3339` of chrono: the instant that `text` names as
/// an RFC 3339 date and time, or chrono's error. The outcome depends on the
/// text alone.
#[verifier::external_body]
pub(crate) fn parse_rfc3339(text: &str) -> (parsed: Result<Timestamp, chrono::ParseError>)
    ensures
        match parsed {
            Ok(instant) => chrono_rfc3339_instant(text@) == Some(
                (instant.secs as int, instant.nanos as int),
            ),
            Err(_) => chrono_rfc3339_instant(text@) is None,
        },
{
    match chrono::DateTime::parse_from_rfc3339(text) {
        Ok(date_time) => Ok(
            Timestamp { secs: date_time.timestamp(), nanos: date_time.timestamp_subsec_nanos() },
        ),
        Err(error) => Err(error),
    }
}

/// `TimeZone::timestamp_opt` of chrono, on `Local`: the reading of an instant
/// on a wall clock in the machine's time zone. There is a reading exactly
/// where `DateTime::from_timestamp` has a date and a time of day for the
/// instant, which the number of seconds and of nanoseconds decide, whatever
/// the time zone. Nothing is claimed of the fields: they depend on the time
/// zone of the machine.
#[verifier::external_body]
pub(crate) fn local_calendar(secs: i64, nanos: u32) -> (time: Option<CalendarTime>)
    ensures
        time is Some <==> chrono_reaches(secs as int, nanos as int),
{
    let date_time = chrono::Local.timestamp_opt(secs, nanos).single()?;
    Some(
        CalendarTime {
            year: date_time.year(),
            month: date_time.month(),
            day: date_time.day(),
            hour: date_time.hour(),
            minute: date_time.minute(),
        },
    )
}

/// `Local::now` of chrono: what a wall clock in the machine's time zone
/// shows now. Nothing is claimed of it.
#[verifier::external_body]
pub(crate) fn local_calendar_now() -> (time: CalendarTime) {
    let date_time = chrono::Local::now();
    CalendarTime {
        year: date_time.year(),
        month: date_time.month(),
        day: date_time.day(),
        hour: date_time.hour(),
        minute: date_time.minute(),
    }
}

/// `TimeZone::from_local_datetime` of chrono, on `Local`: the instant at
/// which a wall clock in the machine's time zone shows `naive`. `None` where
/// no instant or more than one does, or where `naive` lies outside the range
/// of chrono. Nothing is claimed of the instant: it depends on the time zone
/// of the machine.
#[verifier::external_body]
pub(crate) fn local_instant(naive: &NaiveInstant) -> (instant: Option<Timestamp>) {
    let date_time = chrono::DateTime::from_timestamp(naive.secs, naive.nanos)?.naive_utc();
    let local = chrono::Local.from_local_datetime(&date_time).single()?;
    Some(Timestamp { secs: local.timestamp(), nanos: local.timestamp_subsec_nanos() })
}

} // verus!
