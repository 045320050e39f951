//! The events of a timetable.

use vstd::prelude::*;
use std::cmp::Ordering;
use crate::time::TimeOfDay;

verus! {

/// One occurrence of a day: something that takes place at a fixed time and is
/// known by a name.
#[derive(Debug, PartialEq, Eq)]
pub struct Event {
    /// The time of day at which the event takes place.
    pub time: TimeOfDay,
    /// The name by which the event is known.
    pub name: String,
}

impl Clone for Event {
    /// A copy of the event, equal to it in time and name.
    fn clone(&self) -> (copy: Event)
        ensures
            copy == *self,
    {
        Event { time: self.time, name: self.name.clone() }
    }
}

/// Orders two events by their times alone.
pub fn compare_events(a: &Event, b: &Event) -> (order: Ordering)
    ensures
        order is Less <==> a.time@ < b.time@,
        order is Equal <==> a.time@ == b.time@,
        order is Greater <==> a.time@ > b.time@,
{
    let x: u32 = a.time.seconds();
    let y: u32 = b.time.seconds();
    if x < y {
        Ordering::Less
    } else if x == y {
        Ordering::Equal
    } else {
        Ordering::Greater
    }
}

impl Event {
    /// Whether this event is later in the day than `other`.
    pub fn is_after(&self, other: &Event) -> (later: bool)
        ensures
            later == (self.time@ > other.time@),
    {
        match compare_events(self, other) {
            Ordering::Greater => true,
            _ => false,
        }
    }
}

} // verus!
