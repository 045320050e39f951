//! The two resolutions: the event that is active now, and the wait until the
//! next event's notification threshold.
//!
//! Both work on a timetable, a notification lead in minutes that applies to
//! every event, and the current moment. They are stated over the view of the
//! timetable and over times counted in seconds since midnight.

use vstd::prelude::*;
use crate::day::{days_between, lemma_walk_reaches_every_day, Day};
use crate::event::Event;
use crate::order::{find_earliest, find_upcoming, is_upcoming_first, upcoming_first};
use crate::order::{lemma_day_has_a_first_event, lemma_upcoming_first_exists};
use crate::time::Moment;
use crate::timetable::{events_on, Timetable};

verus! {

/// How long to wait, and for which event.
#[derive(Debug, Clone, PartialEq, Eq)]
pub struct Wakeup {
    /// The wait in seconds until the notification threshold of the event. It
    /// is negative where the event is of a later day and its threshold has
    /// passed already, by as many seconds: the lead then reaches back from
    /// that day to before the current time.
    pub delay_secs: i64,
    /// The event to act on after the wait.
    pub event: Event,
}

/// The event that is active at the time `now` among the events of today: the
/// first event at or after `now`, if it starts within the lead.
pub open spec fn active_event(events: Seq<Event>, notify_lead: int, now: int) -> Option<Event> {
    match upcoming_first(events, now) {
        Some(k) => if events[k].time@ - now <= notify_lead * 60 {
            Some(events[k])
        } else {
            None
        },
        None => None,
    }
}

/// The wait for the first event of today at or after the time `now`, if there
/// is one: none where its notification threshold has passed, else the time
/// until that threshold.
pub open spec fn wakeup_today(events: Seq<Event>, notify_lead: int, now: int) -> Option<
    (int, Event),
> {
    match upcoming_first(events, now) {
        Some(k) => {
            let notify_time = events[k].time@ - notify_lead * 60;
            if notify_time <= now {
                Some((0, events[k]))
            } else {
                Some((notify_time - now, events[k]))
            }
        },
        None => None,
    }
}

/// The number of days from `today` to the first day that has events, looking
/// at the days that lie `start` to 6 days ahead.
pub open spec fn days_until_busy(table: Map<Day, Seq<Event>>, today: Day, start: int) -> Option<
    int,
>
    decreases 7 - start,
{
    if start < 1 || start > 6 {
        None
    } else if events_on(table, today.advance(start as nat)).len() > 0 {
        Some(start)
    } else {
        days_until_busy(table, today, start + 1)
    }
}

/// The wait for the first event of a day that lies `steps` days ahead, whose
/// events are `events`, and that event.
pub open spec fn wakeup_on_later_day(
    events: Seq<Event>,
    notify_lead: int,
    now: int,
    steps: int,
) -> (int, Event) {
    let k = upcoming_first(events, 0)->0;
    let notify_time = events[k].time@ - notify_lead * 60;
    if notify_time > now {
        (steps * 86400 + (notify_time - now), events[k])
    } else {
        ((steps - 1) * 86400 + (86400 - (now - notify_time)), events[k])
    }
}

/// The wait until the next notification threshold, and the event it belongs
/// to. An event of today at or after `now` comes before those of every later
/// day; after today, the first of the next six days that has events decides.
pub open spec fn next_wakeup(
    table: Map<Day, Seq<Event>>,
    notify_lead: int,
    today: Day,
    now: int,
) -> Option<(int, Event)> {
    match wakeup_today(events_on(table, today), notify_lead, now) {
        Some(wakeup) => Some(wakeup),
        None => match days_until_busy(table, today, 1) {
            Some(steps) => Some(
                wakeup_on_later_day(
                    events_on(table, today.advance(steps as nat)),
                    notify_lead,
                    now,
                    steps,
                ),
            ),
            None => None,
        },
    }
}

/// The walk over the following days stops at the first of them that has
/// events: a walk that ends after `steps` days has passed only days without
/// events, and one that finds nothing has passed all six.
pub proof fn lemma_days_until_busy(table: Map<Day, Seq<Event>>, today: Day, start: int)
    requires
        1 <= start <= 7,
    ensures
        match days_until_busy(table, today, start) {
            Some(steps) => {
                &&& start <= steps <= 6
                &&& events_on(table, today.advance(steps as nat)).len() > 0
                &&& forall|s: int|
                    start <= s < steps ==> events_on(
                        table,
                        #[trigger] today.advance(s as nat),
                    ).len() == 0
            },
            None => forall|s: int|
                start <= s <= 6 ==> events_on(table, #[trigger] today.advance(s as nat)).len()
                    == 0,
        },
    decreases 7 - start,
{
    if start <= 6 && events_on(table, today.advance(start as nat)).len() == 0 {
        lemma_days_until_busy(table, today, start + 1);
    }
}

/// An event is active only if it is one of today's events and starts at or
/// after the current time, no later than the lead allows.
pub proof fn lemma_active_event_is_in_window(
    table: Map<Day, Seq<Event>>,
    notify_lead: int,
    today: Day,
    now: int,
)
    ensures
        active_event(events_on(table, today), notify_lead, now) matches Some(event) ==> {
            &&& events_on(table, today).contains(event)
            &&& 0 <= event.time@ - now <= notify_lead * 60
        },
{
    lemma_upcoming_first_exists(events_on(table, today), now);
}

/// Where an event is active, the wait until the next notification threshold
/// is zero, and it is the wait for that same event.
pub proof fn lemma_active_event_wakes_at_once(
    table: Map<Day, Seq<Event>>,
    notify_lead: int,
    today: Day,
    now: int,
)
    ensures
        active_event(events_on(table, today), notify_lead, now) matches Some(event) ==> next_wakeup(
            table,
            notify_lead,
            today,
            now,
        ) == Some((0int, event)),
{
}

/// In a timetable in which no day has events, no event is active and there is
/// nothing to wait for.
pub proof fn lemma_empty_timetable_resolves_to_nothing(
    table: Map<Day, Seq<Event>>,
    notify_lead: int,
    today: Day,
    now: int,
)
    requires
        forall|day: Day| (#[trigger] events_on(table, day)).len() == 0,
    ensures
        active_event(events_on(table, today), notify_lead, now) is None,
        next_wakeup(table, notify_lead, today, now) is None,
{
    lemma_upcoming_first_exists(events_on(table, today), now);
    lemma_days_until_busy(table, today, 1);
}

/// There is nothing to wait for exactly if none of today's events is at or
/// after the current time and no other day has events.
pub proof fn lemma_no_wakeup(table: Map<Day, Seq<Event>>, notify_lead: int, today: Day, now: int)
    ensures
        next_wakeup(table, notify_lead, today, now) is None <==> {
            &&& forall|j: int|
                0 <= j < events_on(table, today).len() ==> (#[trigger] events_on(
                    table,
                    today,
                )[j]).time@ < now
            &&& forall|day: Day| day != today ==> (#[trigger] events_on(table, day)).len() == 0
        },
{
    lemma_upcoming_first_exists(events_on(table, today), now);
    lemma_days_until_busy(table, today, 1);
    if next_wakeup(table, notify_lead, today, now) is None {
        assert forall|day: Day| day != today implies (#[trigger] events_on(table, day)).len()
            == 0 by {
            lemma_walk_reaches_every_day(today, day);
            assert(events_on(table, today.advance(days_between(today, day))).len() == 0);
        }
    } else if wakeup_today(events_on(table, today), notify_lead, now) is None {
        let steps = days_until_busy(table, today, 1)->0;
        lemma_walk_reaches_every_day(today, today.advance(steps as nat));
    }
}

/// The wait for an event on a later day is the time from now to its
/// notification threshold: the days in between, and the difference of the two
/// times of day. The event is the first of that day.
pub proof fn lemma_wait_for_later_day(events: Seq<Event>, notify_lead: int, now: int, steps: int)
    requires
        events.len() > 0,
    ensures
        ({
            let (delay, event) = wakeup_on_later_day(events, notify_lead, now, steps);
            let k = upcoming_first(events, 0)->0;
            &&& is_upcoming_first(events, 0, k)
            &&& event == events[k]
            &&& delay == steps * 86400 + event.time@ - notify_lead * 60 - now
        }),
{
    lemma_day_has_a_first_event(events);
}

/// The event to wait for is an event of the timetable: one of today that is
/// not before the current time, or the first event of the first of the six
/// following days that has any.
pub proof fn lemma_wakeup_event_is_listed(
    table: Map<Day, Seq<Event>>,
    notify_lead: int,
    today: Day,
    now: int,
)
    ensures
        next_wakeup(table, notify_lead, today, now) matches Some((delay, event)) ==> {
            ||| events_on(table, today).contains(event) && event.time@ >= now && delay >= 0
            ||| exists|steps: int|
                1 <= steps <= 6 && events_on(
                    table,
                    #[trigger] today.advance(steps as nat),
                ).contains(event)
        },
{
    lemma_upcoming_first_exists(events_on(table, today), now);
    lemma_days_until_busy(table, today, 1);
    if wakeup_today(events_on(table, today), notify_lead, now) is None {
        if let Some(steps) = days_until_busy(table, today, 1) {
            let events = events_on(table, today.advance(steps as nat));
            lemma_wait_for_later_day(events, notify_lead, now, steps);
        }
    }
}

/// The event that is active now: the first of today's events at or after the
/// current time, if it starts within `notify_lead` minutes. Events of other
/// days are never active.
pub fn resolve_active(timetable: &Timetable, notify_lead: u32, now: Moment) -> (active: Option<
    Event,
>)
    ensures
        active == active_event(events_on(timetable@, now.day), notify_lead as int, now.time@),
        active matches Some(event) ==> events_on(timetable@, now.day).contains(event) && 0
            <= event.time@ - now.time@ <= notify_lead * 60,
{
    proof {
        lemma_upcoming_first_exists(events_on(timetable@, now.day), now.time@);
    }
    let events = match timetable.get(now.day) {
        Some(events) => events,
        None => {
            return None;
        },
    };
    match find_upcoming(events, now.time) {
        Some(k) => {
            let gap: i64 = events[k].time.seconds() as i64 - now.time.seconds() as i64;
            if gap > notify_lead as i64 * 60 {
                None
            } else {
                Some(events[k].clone())
            }
        },
        None => None,
    }
}

/// The wait until the next notification threshold and the event to act on
/// then, or nothing where neither the rest of today nor any of the next six
/// days has an event.
pub fn resolve_next_wakeup(timetable: &Timetable, notify_lead: u32, now: Moment) -> (wakeup:
    Option<Wakeup>)
    ensures
        match wakeup {
            Some(w) => next_wakeup(timetable@, notify_lead as int, now.day, now.time@) == Some(
                (w.delay_secs as int, w.event),
            ),
            None => next_wakeup(timetable@, notify_lead as int, now.day, now.time@) is None,
        },
{
    let lead: i64 = notify_lead as i64 * 60;
    let clock: i64 = now.time.seconds() as i64;
    if let Some(events) = timetable.get(now.day) {
        if let Some(k) = find_upcoming(events, now.time) {
            let notify_time: i64 = events[k].time.seconds() as i64 - lead;
            let delay_secs: i64 = if notify_time <= clock {
                0
            } else {
                notify_time - clock
            };
            return Some(Wakeup { delay_secs, event: events[k].clone() });
        }
    } else {
        proof {
            lemma_upcoming_first_exists(events_on(timetable@, now.day), now.time@);
        }
    }
    let mut day = now.day;
    let mut steps: i64 = 1;
    while steps <= 6
        invariant
            1 <= steps <= 7,
            day == now.day.advance((steps - 1) as nat),
            days_until_busy(timetable@, now.day, 1) == days_until_busy(
                timetable@,
                now.day,
                steps as int,
            ),
            wakeup_today(events_on(timetable@, now.day), notify_lead as int, now.time@) is None,
            lead == notify_lead * 60,
            clock == now.time@,
            0 <= clock < 86400,
        decreases 7 - steps,
    {
        day = day.next();
        if let Some(events) = timetable.get(day) {
            if let Some(k) = find_earliest(events) {
                let notify_time: i64 = events[k].time.seconds() as i64 - lead;
                let delay_secs: i64 = if notify_time > clock {
                    steps * 86400 + (notify_time - clock)
                } else {
                    (steps - 1) * 86400 + (86400 - (clock - notify_time))
                };
                return Some(Wakeup { delay_secs, event: events[k].clone() });
            }
        }
        steps += 1;
    }
    None
}

} // verus!
