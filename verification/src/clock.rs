//! The wall-clock time that the status bar and the dashboard clock show.

use vstd::prelude::*;
use chrono::{Datelike, Timelike};

verus! {

/// A local calendar date and time of day, to the minute.
#[derive(Clone, Copy, PartialEq, Eq, Debug)]
pub struct LocalTime {
    /// Hour of the day, 0 to 23.
    pub hour: u32,
    /// Minute of the hour, 0 to 59.
    pub minute: u32,
    /// Day of the month, 1 to 31.
    pub day: u32,
    /// Month of the year, 1 to 12.
    pub month: u32,
}

impl LocalTime {
    /// Every field lies in its calendar range.
    pub open spec fn wf(&self) -> bool {
        &&& self.hour < 24
        &&& self.minute < 60
        &&& 1 <= self.day <= 31
        &&& 1 <= self.month <= 12
    }
}

/// The current local time, read from `chrono::Local::now`. Of the result
/// only the calendar ranges that chrono documents for `hour`, `minute`,
/// `day` and `month` are stated; which time it is depends on the clock.
#[verifier::external_body]
pub(crate) fn local_time_now() -> (t: LocalTime)
    ensures
        t.wf(),
{
    let now = chrono::Local::now();
    LocalTime { hour: now.hour(), minute: now.minute(), day: now.day(), month: now.month() }
}

} // verus!
