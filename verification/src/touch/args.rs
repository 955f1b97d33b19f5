//! The options of a touch run and the decisions that follow from them.
//!
//! The library decides; the program around it reads clocks and files and
//! sets the times. For each file the program asks for the plan, reads what
//! the plan needs, and sets what the plan gives.

use vstd::prelude::*;
use vstd::string::StringExecFns;
use crate::calendar::NaiveInstant;
use crate::calendar::Timestamp;
use crate::calendar::calendar_text;
use crate::calendar::chrono_naive_instant;
use crate::calendar::chrono_rfc3339_instant;
use crate::calendar::local_calendar_now;
use crate::calendar::local_instant;
use crate::calendar::parse_naive;
use crate::calendar::parse_rfc3339;
use crate::text::byte_count;
use crate::text::byte_width;
use crate::text::has_char;
use crate::text::same_text;

verus! {

/// The options of a touch run.
#[derive(Debug)]
pub struct Args {
    /// Whether help was asked for.
    pub help: Option<bool>,
    /// The files to touch.
    pub files: Vec<String>,
    /// Set the access time only.
    pub access_only: bool,
    /// Create no file.
    pub no_create: bool,
    /// Take the times from this date instead of the clock.
    pub date: Option<String>,
    /// Without effect.
    pub force: bool,
    /// Set the times of a symbolic link itself.
    pub no_dereference: bool,
    /// Set the modification time only.
    pub modify_only: bool,
    /// Take the times from this file instead of the clock.
    pub reference: Option<String>,
    /// Take the times from this stamp, `[[CC]YY]MMDDhhmm[.ss]`.
    pub time_format: Option<String>,
    /// Which time to set, by word.
    pub time: Option<String>,
}

/// What can go wrong before any file is touched.
#[derive(Debug, PartialEq, Eq)]
pub enum TouchError {
    /// The word that names the time to set is none of the known ones.
    InvalidTimeWord(String),
    /// The date is neither an RFC 3339 date and time nor of the form
    /// `YYYY-MM-DD hh:mm:ss`.
    UnreadableDate(String),
    /// The stamp is not of the form `[[CC]YY]MMDDhhmm[.ss]`.
    UnreadableTime(String),
    /// The date or stamp names a time that the local time zone does not
    /// have, or has twice.
    NoLocalTime(String),
}

/// The mathematical model of a [`TouchError`].
pub enum TouchErrorModel {
    InvalidTimeWord(Seq<char>),
    UnreadableDate(Seq<char>),
    UnreadableTime(Seq<char>),
    NoLocalTime(Seq<char>),
}

impl View for TouchError {
    type V = TouchErrorModel;

    open spec fn view(&self) -> TouchErrorModel {
        match self {
            TouchError::InvalidTimeWord(w) => TouchErrorModel::InvalidTimeWord(w@),
            TouchError::UnreadableDate(t) => TouchErrorModel::UnreadableDate(t@),
            TouchError::UnreadableTime(t) => TouchErrorModel::UnreadableTime(t@),
            TouchError::NoLocalTime(t) => TouchErrorModel::NoLocalTime(t@),
        }
    }
}

/// Which of the two times of a file a run leaves alone.
#[derive(Clone, Copy, Debug, PartialEq, Eq, Structural)]
pub struct Selection {
    /// The modification time is left alone.
    pub access_only: bool,
    /// The access time is left alone.
    pub modify_only: bool,
}

/// Where the times of a run come from.
#[derive(Debug, PartialEq, Eq)]
pub enum TimeSource {
    /// From the times of this file.
    Reference(String),
    /// From this date.
    Date(String),
    /// From this stamp.
    Stamp(String),
    /// From the clock.
    Now,
}

/// The mathematical model of a [`TimeSource`].
pub enum TimeSourceModel {
    Reference(Seq<char>),
    Date(Seq<char>),
    Stamp(Seq<char>),
    Now,
}

impl View for TimeSource {
    type V = TimeSourceModel;

    open spec fn view(&self) -> TimeSourceModel {
        match self {
            TimeSource::Reference(p) => TimeSourceModel::Reference(p@),
            TimeSource::Date(t) => TimeSourceModel::Date(t@),
            TimeSource::Stamp(t) => TimeSourceModel::Stamp(t@),
            TimeSource::Now => TimeSourceModel::Now,
        }
    }
}

/// The two times of a file.
#[derive(Clone, Copy, Debug, PartialEq, Eq, Structural)]
pub struct FileTimes {
    pub accessed: Timestamp,
    pub modified: Timestamp,
}

/// How one file is touched.
#[derive(Clone, Copy, Debug, PartialEq, Eq, Structural)]
pub struct TouchPlan {
    /// The access time stays as the file has it, and is read from it.
    pub keep_access: bool,
    /// The modification time stays as the file has it, and is read from it.
    pub keep_modify: bool,
    /// The file is created before its times are set.
    pub create: bool,
    /// The times are set on what a symbolic link points to, not on the link.
    pub follow_links: bool,
}

/// What is done with one file.
#[derive(Clone, Copy, Debug, PartialEq, Eq, Structural)]
pub enum FileAction {
    /// Nothing: the file is missing and none is to be created.
    Skip,
    Touch(TouchPlan),
}

/// What a date holds.
#[derive(Clone, Copy, Debug, PartialEq, Eq, Structural)]
pub enum DateReading {
    /// An instant, with its own offset from universal time.
    Instant(Timestamp),
    /// A date and time of day, to be read in the local time zone.
    Local(NaiveInstant),
}

/// Whether `word` asks for the access time.
pub open spec fn is_access_word(word: Seq<char>) -> bool {
    word == "access"@ || word == "atime"@ || word == "use"@
}

/// Whether `word` asks for the modification time.
pub open spec fn is_modify_word(word: Seq<char>) -> bool {
    word == "modify"@ || word == "mtime"@
}

/// The pattern of a stamp: with seconds behind a dot where the stamp has a
/// dot, without where it has none.
pub open spec fn time_pattern(stamp: Seq<char>) -> Seq<char> {
    if stamp.contains('.') {
        "%Y%m%d%H%M.%S"@
    } else {
        "%Y%m%d%H%M"@
    }
}

/// The stamp with its year: a stamp of more than twelve bytes has one, a
/// shorter one gets `year` in front.
pub open spec fn full_time_text(stamp: Seq<char>, year: Seq<char>) -> Seq<char> {
    if byte_width(stamp) > 12 {
        stamp
    } else {
        year + stamp
    }
}

/// The pattern of a date that is no RFC 3339 date and time.
pub open spec fn date_pattern() -> Seq<char> {
    "%Y-%m-%d %H:%M:%S"@
}

/// The date and time of day that a stamp names when the year is `year`.
pub open spec fn time_reading(stamp: Seq<char>, year: Seq<char>) -> Option<(int, int)> {
    chrono_naive_instant(full_time_text(stamp, year), time_pattern(stamp))
}

impl Args {
    /// Which times the run leaves alone, or the word that names no time.
    /// A word switches one of the two options on and none off.
    pub open spec fn selection_spec(self) -> Result<Selection, Seq<char>> {
        match self.time {
            Some(word) => if is_access_word(word@) {
                Ok(Selection { access_only: true, modify_only: self.modify_only })
            } else if is_modify_word(word@) {
                Ok(Selection { access_only: self.access_only, modify_only: true })
            } else {
                Err(word@)
            },
            None => Ok(Selection { access_only: self.access_only, modify_only: self.modify_only }),
        }
    }

    /// Where the times come from: a reference file before a date, a date
    /// before a stamp, and the clock where none of them is given.
    pub open spec fn time_source_spec(self) -> TimeSourceModel {
        match (self.reference, self.date, self.time_format) {
            (Some(path), _, _) => TimeSourceModel::Reference(path@),
            (None, Some(date), _) => TimeSourceModel::Date(date@),
            (None, None, Some(stamp)) => TimeSourceModel::Stamp(stamp@),
            (None, None, None) => TimeSourceModel::Now,
        }
    }

    /// What is done with a file that exists or not: a missing file is
    /// skipped where none is to be created; else each time that the
    /// selection leaves alone is kept, and the file is created first where
    /// it is missing and the run follows links.
    pub open spec fn plan_spec(self, selection: Selection, exists: bool) -> FileAction {
        if !exists && self.no_create {
            FileAction::Skip
        } else {
            FileAction::Touch(
                TouchPlan {
                    keep_access: selection.modify_only,
                    keep_modify: selection.access_only,
                    create: !self.no_dereference && !exists,
                    follow_links: !self.no_dereference,
                },
            )
        }
    }

    /// Which times the run leaves alone. The words `access`, `atime` and
    /// `use` ask for the access time, `modify` and `mtime` for the
    /// modification time; any other word is an error.
    pub fn selection(&self) -> (r: Result<Selection, TouchError>)
        ensures
            match r {
                Ok(s) => self.selection_spec() == Ok::<Selection, Seq<char>>(s),
                Err(e) => self.selection_spec() is Err && e@ == TouchErrorModel::InvalidTimeWord(
                    self.selection_spec()->Err_0,
                ),
            },
    {
        match &self.time {
            Some(word) => {
                let w = word.as_str();
                if same_text(w, "access") || same_text(w, "atime") || same_text(w, "use") {
                    Ok(Selection { access_only: true, modify_only: self.modify_only })
                } else if same_text(w, "modify") || same_text(w, "mtime") {
                    Ok(Selection { access_only: self.access_only, modify_only: true })
                } else {
                    Err(TouchError::InvalidTimeWord(word.clone()))
                }
            },
            None => Ok(Selection { access_only: self.access_only, modify_only: self.modify_only }),
        }
    }

    /// Where the times of the run come from.
    pub fn time_source(&self) -> (source: TimeSource)
        ensures
            source@ == self.time_source_spec(),
    {
        match (&self.reference, &self.date, &self.time_format) {
            (Some(path), _, _) => TimeSource::Reference(path.clone()),
            (None, Some(date), _) => TimeSource::Date(date.clone()),
            (None, None, Some(stamp)) => TimeSource::Stamp(stamp.clone()),
            (None, None, None) => TimeSource::Now,
        }
    }

    /// What is done with one file, which exists or not.
    pub fn plan_for(&self, selection: Selection, exists: bool) -> (action: FileAction)
        ensures
            action == self.plan_spec(selection, exists),
    {
        if !exists && self.no_create {
            FileAction::Skip
        } else {
            FileAction::Touch(
                TouchPlan {
                    keep_access: selection.modify_only,
                    keep_modify: selection.access_only,
                    create: !self.no_dereference && !exists,
                    follow_links: !self.no_dereference,
                },
            )
        }
    }
}

impl TouchPlan {
    /// Whether the times that the file has now are read before any is set.
    pub fn needs_current(&self) -> (r: bool)
        ensures
            r == (self.keep_access || self.keep_modify),
    {
        self.keep_access || self.keep_modify
    }

    /// The times that are set on the file: each one from `chosen`, or from
    /// `current`, the times that the file has now, where it is kept.
    pub fn times(&self, chosen: FileTimes, current: FileTimes) -> (set: FileTimes)
        ensures
            set.accessed == if self.keep_access {
                current.accessed
            } else {
                chosen.accessed
            },
            set.modified == if self.keep_modify {
                current.modified
            } else {
                chosen.modified
            },
    {
        FileTimes {
            accessed: if self.keep_access {
                current.accessed
            } else {
                chosen.accessed
            },
            modified: if self.keep_modify {
                current.modified
            } else {
                chosen.modified
            },
        }
    }
}

impl TouchError {
    /// The message of the error.
    pub fn message(&self) -> (text: String)
        ensures
            text@ == match self@ {
                TouchErrorModel::InvalidTimeWord(w) => "無效的時間值: "@ + w,
                TouchErrorModel::UnreadableDate(t) => "無法解析日期字串: "@ + t,
                TouchErrorModel::UnreadableTime(t) => "無法解析時間格式: "@ + t,
                TouchErrorModel::NoLocalTime(t) => "無法對應到本地時間: "@ + t,
            },
    {
        match self {
            TouchError::InvalidTimeWord(w) => String::from_str("無效的時間值: ").concat(w.as_str()),
            TouchError::UnreadableDate(t) => String::from_str("無法解析日期字串: ").concat(
                t.as_str(),
            ),
            TouchError::UnreadableTime(t) => String::from_str("無法解析時間格式: ").concat(
                t.as_str(),
            ),
            TouchError::NoLocalTime(t) => String::from_str("無法對應到本地時間: ").concat(
                t.as_str(),
            ),
        }
    }
}

/// The pattern under which `stamp` is read.
pub fn time_pattern_of(stamp: &str) -> (pattern: &'static str)
    ensures
        pattern@ == time_pattern(stamp@),
{
    if has_char(stamp, '.') {
        "%Y%m%d%H%M.%S"
    } else {
        "%Y%m%d%H%M"
    }
}

/// The stamp with its year in front, where it has none of its own.
pub fn full_time_string(stamp: &str, year: &str) -> (full: String)
    ensures
        full@ == full_time_text(stamp@, year@),
{
    if byte_count(stamp) > 12 {
        stamp.to_owned()
    } else {
        String::from_str(year).concat(stamp)
    }
}

/// Reads a stamp of the form `[[CC]YY]MMDDhhmm[.ss]` as a date and time of
/// day. A stamp of at most twelve bytes has no year of its own and gets
/// `current_year`.
pub fn read_time_format(time_str: &str, current_year: &str) -> (r: Result<
    NaiveInstant,
    TouchError,
>)
    ensures
        match r {
            Ok(naive) => time_reading(time_str@, current_year@) == Some(
                (naive.secs as int, naive.nanos as int),
            ),
            Err(e) => time_reading(time_str@, current_year@) is None && e@
                == TouchErrorModel::UnreadableTime(time_str@),
        },
{
    let pattern = time_pattern_of(time_str);
    let full = full_time_string(time_str, current_year);
    match parse_naive(full.as_str(), pattern) {
        Ok(naive) => Ok(naive),
        Err(_) => Err(TouchError::UnreadableTime(time_str.to_owned())),
    }
}

/// Reads a date: as an RFC 3339 date and time first, which names an
/// instant; else in the form `YYYY-MM-DD hh:mm:ss`, which names a date and
/// time of day.
pub fn read_date_string(date_str: &str) -> (r: Result<DateReading, TouchError>)
    ensures
        match r {
            Ok(DateReading::Instant(instant)) => chrono_rfc3339_instant(date_str@) == Some(
                (instant.secs as int, instant.nanos as int),
            ),
            Ok(DateReading::Local(naive)) => chrono_rfc3339_instant(date_str@) is None
                && chrono_naive_instant(date_str@, date_pattern()) == Some(
                (naive.secs as int, naive.nanos as int),
            ),
            Err(e) => chrono_rfc3339_instant(date_str@) is None && chrono_naive_instant(
                date_str@,
                date_pattern(),
            ) is None && e@ == TouchErrorModel::UnreadableDate(date_str@),
        },
{
    match parse_rfc3339(date_str) {
        Ok(instant) => Ok(DateReading::Instant(instant)),
        Err(_) => match parse_naive(date_str, "%Y-%m-%d %H:%M:%S") {
            Ok(naive) => Ok(DateReading::Local(naive)),
            Err(_) => Err(TouchError::UnreadableDate(date_str.to_owned())),
        },
    }
}

/// Reads a date as an instant. A date without an offset is read in the time
/// zone of the machine. Whatever that zone is: an RFC 3339 date gives its
/// instant; a date of the form `YYYY-MM-DD hh:mm:ss` gives an instant, or
/// the error for a time that the zone does not have; and a date of neither
/// form gives the error for an unreadable date.
pub fn parse_date_string(date_str: &str) -> (r: Result<Timestamp, TouchError>)
    ensures
        match chrono_rfc3339_instant(date_str@) {
            Some(pair) => r matches Ok(instant) && (instant.secs as int, instant.nanos as int)
                == pair,
            None => match chrono_naive_instant(date_str@, date_pattern()) {
                Some(_) => r is Ok || (r matches Err(e) && e@ == TouchErrorModel::NoLocalTime(
                    date_str@,
                )),
                None => r matches Err(e) && e@ == TouchErrorModel::UnreadableDate(date_str@),
            },
        },
{
    match read_date_string(date_str) {
        Ok(DateReading::Instant(instant)) => Ok(instant),
        Ok(DateReading::Local(naive)) => match local_instant(&naive) {
            Some(instant) => Ok(instant),
            None => Err(TouchError::NoLocalTime(date_str.to_owned())),
        },
        Err(e) => Err(e),
    }
}

/// Reads a stamp of the form `[[CC]YY]MMDDhhmm[.ss]` as an instant in the
/// time zone of the machine; a stamp without a year is of the current year.
/// Whatever the zone and the year are: a stamp of more than twelve bytes
/// gives an instant, or the error for a time that the zone does not have,
/// where it is of the form, and the error for an unreadable stamp where it
/// is not; and no other error comes of any stamp.
pub fn parse_time_format(time_str: &str) -> (r: Result<Timestamp, TouchError>)
    ensures
        byte_width(time_str@) > 12 ==> match chrono_naive_instant(
            time_str@,
            time_pattern(time_str@),
        ) {
            Some(_) => r is Ok || (r matches Err(e) && e@ == TouchErrorModel::NoLocalTime(
                time_str@,
            )),
            None => r matches Err(e) && e@ == TouchErrorModel::UnreadableTime(time_str@),
        },
        r matches Err(e) ==> (e@ == TouchErrorModel::UnreadableTime(time_str@) || e@
            == TouchErrorModel::NoLocalTime(time_str@)),
{
    let year = if byte_count(time_str) > 12 {
        String::new()
    } else {
        match calendar_text(&local_calendar_now(), "%Y") {
            Some(year) => year,
            None => {
                return Err(TouchError::UnreadableTime(time_str.to_owned()));
            },
        }
    };
    match read_time_format(time_str, year.as_str()) {
        Ok(naive) => match local_instant(&naive) {
            Some(instant) => Ok(instant),
            None => Err(TouchError::NoLocalTime(time_str.to_owned())),
        },
        Err(e) => Err(e),
    }
}

} // verus!
