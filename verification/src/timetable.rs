//! The weekly timetable: for each day of the week, the events of that day.

use vstd::prelude::*;
use std::collections::HashMap;
use crate::day::Day;
use crate::event::Event;

verus! {

/// A weekly timetable.
///
/// Its view maps each day that has an entry to the events listed for it, in
/// the order in which they were listed. A day without an entry has no events,
/// and neither has a day whose entry is an empty list.
#[derive(Debug)]
pub struct Timetable {
    days: HashMap<u8, Vec<Event>>,
}

impl View for Timetable {
    type V = Map<Day, Seq<Event>>;

    closed spec fn view(&self) -> Map<Day, Seq<Event>> {
        Map::new(
            |day: Day| self.days@.contains_key(day.index() as u8),
            |day: Day| self.days@[day.index() as u8]@,
        )
    }
}

/// The events of `day` in the timetable `table`: those of its entry, and none
/// where it has no entry.
pub open spec fn events_on(table: Map<Day, Seq<Event>>, day: Day) -> Seq<Event> {
    if table.contains_key(day) {
        table[day]
    } else {
        Seq::empty()
    }
}

impl Clone for Timetable {
    /// A copy of the timetable, with the same entries.
    fn clone(&self) -> (copy: Timetable)
        ensures
            copy@ == self@,
    {
        Timetable { days: self.days.clone() }
    }
}

impl Default for Timetable {
    /// A timetable without any entry.
    fn default() -> (timetable: Timetable)
        ensures
            timetable@ == Map::<Day, Seq<Event>>::empty(),
    {
        Timetable::new()
    }
}

impl Timetable {
    /// A timetable without any entry.
    pub fn new() -> (timetable: Timetable)
        ensures
            timetable@ == Map::<Day, Seq<Event>>::empty(),
    {
        Timetable { days: HashMap::new() }
    }

    /// Sets the entry of `day` to `events`, and returns the list that the
    /// entry held before, if there was one.
    pub fn insert(&mut self, day: Day, events: Vec<Event>) -> (previous: Option<Vec<Event>>)
        ensures
            final(self)@ == old(self)@.insert(day, events@),
            match previous {
                Some(list) => old(self)@.contains_key(day) && list@ == old(self)@[day],
                None => !old(self)@.contains_key(day),
            },
    {
        self.days.insert(day.number(), events)
    }

    /// The list of events in the entry of `day`, if it has one.
    pub fn get(&self, day: Day) -> (events: Option<&Vec<Event>>)
        ensures
            match events {
                Some(list) => self@.contains_key(day) && list@ == self@[day],
                None => !self@.contains_key(day),
            },
    {
        let key: u8 = day.number();
        self.days.get(&key)
    }
}

} // verus!
