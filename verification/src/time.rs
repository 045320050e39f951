//! Times of day with a resolution of one second, and moments of the week.

use vstd::prelude::*;
use crate::day::Day;

verus! {

/// The number of seconds in a minute.
pub const SECONDS_PER_MINUTE: u32 = 60;

/// The number of seconds in an hour.
pub const SECONDS_PER_HOUR: u32 = 3_600;

/// The number of seconds in a day.
pub const SECONDS_PER_DAY: u32 = 86_400;

/// A time of day between 00:00:00 and 23:59:59, without a date.
///
/// Its view is the number of seconds since midnight.
#[derive(Clone, Copy, Debug, PartialEq, Eq, Structural, PartialOrd, Ord, Hash)]
pub struct TimeOfDay {
    secs: u32,
}

impl View for TimeOfDay {
    type V = int;

    closed spec fn view(&self) -> int {
        self.secs as int
    }
}

impl TimeOfDay {
    /// Every time of day lies before the end of the day.
    #[verifier::type_invariant]
    pub closed spec fn is_valid(self) -> bool {
        self.secs < SECONDS_PER_DAY
    }

    /// The time `hour:minute:second`, if these make a time of day.
    pub fn from_hms(hour: u32, minute: u32, second: u32) -> (time: Option<TimeOfDay>)
        ensures
            hour < 24 && minute < 60 && second < 60 ==> time is Some && time->0.is_valid()
                && time->0@ == hour * 3600 + minute * 60 + second,
            !(hour < 24 && minute < 60 && second < 60) ==> time is None,
    {
        if hour < 24 && minute < 60 && second < 60 {
            Some(TimeOfDay { secs: hour * SECONDS_PER_HOUR + minute * SECONDS_PER_MINUTE + second })
        } else {
            None
        }
    }

    /// The time that lies `secs` seconds after midnight, if that is still the
    /// same day.
    pub fn from_seconds(secs: u32) -> (time: Option<TimeOfDay>)
        ensures
            secs < SECONDS_PER_DAY ==> time is Some && time->0.is_valid() && time->0@ == secs,
            secs >= SECONDS_PER_DAY ==> time is None,
    {
        if secs < SECONDS_PER_DAY {
            Some(TimeOfDay { secs })
        } else {
            None
        }
    }

    /// Midnight, the first time of the day.
    pub fn midnight() -> (time: TimeOfDay)
        ensures
            time@ == 0,
            time.is_valid(),
    {
        TimeOfDay { secs: 0 }
    }

    /// The number of seconds since midnight.
    pub fn seconds(&self) -> (secs: u32)
        ensures
            secs == self@,
            secs < SECONDS_PER_DAY,
    {
        proof {
            use_type_invariant(self);
        }
        self.secs
    }
}

/// No time of day lies before midnight.
pub proof fn lemma_time_is_not_negative(time: TimeOfDay)
    ensures
        time@ >= 0,
{
}

/// Two times of day that lie equally far from midnight are the same time.
pub proof fn lemma_time_is_its_view(a: TimeOfDay, b: TimeOfDay)
    ensures
        a@ == b@ <==> a == b,
{
}

/// A point in the recurring week: a day and a time on that day.
#[derive(Clone, Copy, Debug, PartialEq, Eq, Structural, Hash)]
pub struct Moment {
    pub day: Day,
    pub time: TimeOfDay,
}

} // verus!
