//! The modification stamp of the long format.
//!
//! An entry modified in the current year shows month, day and time of day;
//! any other shows month, day and year.

use vstd::prelude::*;
use crate::calendar::CalendarTime;
use crate::calendar::calendar_text;
use crate::calendar::calendar_text_of;
use crate::calendar::dated_pattern;
use crate::calendar::recent_pattern;
use crate::ls::entry::text_model;

verus! {

/// The pattern under which `time` is shown when the current year is
/// `current_year`.
pub open spec fn stamp_pattern(time: CalendarTime, current_year: i32) -> Seq<char> {
    if time.year == current_year {
        recent_pattern()
    } else {
        dated_pattern()
    }
}

/// The stamp of an entry modified at `time`, seen from `current_year`;
/// `None` where the fields of `time` are no calendar time.
pub open spec fn stamp_text(time: CalendarTime, current_year: i32) -> Option<Seq<char>> {
    calendar_text_of(time, stamp_pattern(time, current_year))
}

/// The stamp of an entry modified at `time`, seen from `current_year`;
/// `None` where the fields of `time` are no calendar time.
pub fn stamp_for(time: &CalendarTime, current_year: i32) -> (text: Option<String>)
    ensures
        text_model(text) == stamp_text(*time, current_year),
{
    if time.year == current_year {
        calendar_text(time, "%b %e %H:%M")
    } else {
        calendar_text(time, "%b %e  %Y")
    }
}

} // verus!
