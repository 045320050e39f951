//! The order of a day's events by time, and the search in that order.
//!
//! A day's events are listed in no particular order, and two of them may share
//! a time. They are put in order without being moved: the order is a list of
//! their positions. Events of equal time keep the order in which they are
//! listed, so that the outcome of every search is fixed by the list alone.

use vstd::prelude::*;
use crate::event::Event;
use crate::time::TimeOfDay;
use crate::time::lemma_time_is_not_negative;

verus! {

/// Whether the event listed at position `a` comes before the one listed at
/// position `b`: it is the earlier of the two or, where their times are equal,
/// the one listed first.
pub open spec fn comes_before(events: Seq<Event>, a: int, b: int) -> bool {
    events[a].time@ < events[b].time@ || (events[a].time@ == events[b].time@ && a < b)
}

/// Whether `order` holds the positions of the first `count` events, each of
/// them once, so that every event comes before those after it.
pub open spec fn orders_first(events: Seq<Event>, order: Seq<usize>, count: int) -> bool {
    &&& order.len() == count
    &&& forall|i: int| 0 <= i < count ==> (#[trigger] order[i]) < count
    &&& forall|i: int, j: int|
        0 <= i < j < count ==> comes_before(events, order[i] as int, order[j] as int)
    &&& forall|k: usize| k < count ==> #[trigger] order.contains(k)
}

/// Whether `order` holds the positions of all the events in order of time,
/// equal times in the order of the list.
pub open spec fn is_time_order(events: Seq<Event>, order: Seq<usize>) -> bool {
    orders_first(events, order, events.len() as int)
}

/// Whether `order` holds positions of events so that no event is later than
/// one after it.
pub open spec fn is_sorted_by_time(events: Seq<Event>, order: Seq<usize>) -> bool {
    &&& forall|i: int| 0 <= i < order.len() ==> (#[trigger] order[i]) < events.len()
    &&& forall|i: int, j: int|
        0 <= i <= j < order.len() ==> events[order[i] as int].time@ <= events[order[j] as int].time@
}

/// Whether the event at position `k` is the first at or after the time `from`:
/// it is not before `from`, and it comes before every other event that is not
/// before `from`.
pub open spec fn is_upcoming_first(events: Seq<Event>, from: int, k: int) -> bool {
    &&& 0 <= k < events.len()
    &&& events[k].time@ >= from
    &&& forall|j: int|
        0 <= j < events.len() && j != k && (#[trigger] events[j]).time@ >= from ==> comes_before(
            events,
            k,
            j,
        )
}

/// The position of the first event at or after the time `from`, if there is
/// an event that is not before `from`.
pub open spec fn upcoming_first(events: Seq<Event>, from: int) -> Option<int> {
    if exists|k: int| is_upcoming_first(events, from, k) {
        Some(choose|k: int| is_upcoming_first(events, from, k))
    } else {
        None
    }
}

/// At most one event is the first at or after a given time.
pub proof fn lemma_upcoming_first_is_unique(events: Seq<Event>, from: int, a: int, b: int)
    requires
        is_upcoming_first(events, from, a),
        is_upcoming_first(events, from, b),
    ensures
        a == b,
{
}

/// The event that is the first at or after a given time is the one that
/// `upcoming_first` names.
pub proof fn lemma_upcoming_first_found(events: Seq<Event>, from: int, k: int)
    requires
        is_upcoming_first(events, from, k),
    ensures
        upcoming_first(events, from) == Some(k),
{
    let chosen = choose|k: int| is_upcoming_first(events, from, k);
    lemma_upcoming_first_is_unique(events, from, k, chosen);
}

/// There is a first event at or after a given time exactly if some event is
/// not before that time, and it is then one of these.
pub proof fn lemma_upcoming_first_exists(events: Seq<Event>, from: int)
    ensures
        upcoming_first(events, from) is Some <==> exists|j: int|
            0 <= j < events.len() && (#[trigger] events[j]).time@ >= from,
        upcoming_first(events, from) matches Some(k) ==> is_upcoming_first(events, from, k),
    decreases events.len(),
{
    if exists|j: int| 0 <= j < events.len() && (#[trigger] events[j]).time@ >= from {
        let last = events.len() - 1;
        let shorter = events.drop_last();
        lemma_upcoming_first_exists(shorter, from);
        assert(forall|j: int| 0 <= j < last ==> shorter[j] == events[j]);
        match upcoming_first(shorter, from) {
            Some(k) => {
                if events[last].time@ >= from && events[last].time@ < events[k].time@ {
                    assert(is_upcoming_first(events, from, last));
                } else {
                    assert(is_upcoming_first(events, from, k));
                }
            },
            None => {
                assert(is_upcoming_first(events, from, last));
            },
        }
    }
}

/// A day that has events has a first one: the first at or after midnight.
pub proof fn lemma_day_has_a_first_event(events: Seq<Event>)
    requires
        events.len() > 0,
    ensures
        upcoming_first(events, 0) is Some,
        is_upcoming_first(events, 0, upcoming_first(events, 0)->0),
{
    lemma_time_is_not_negative(events[0].time);
    lemma_upcoming_first_exists(events, 0);
}

/// In an order of time no event is later than one after it.
pub proof fn lemma_time_order_is_sorted(events: Seq<Event>, order: Seq<usize>)
    requires
        is_time_order(events, order),
    ensures
        is_sorted_by_time(events, order),
{
    assert forall|i: int, j: int| 0 <= i <= j < order.len() implies events[order[i] as int].time@
        <= events[order[j] as int].time@ by {
        if i < j {
            assert(comes_before(events, order[i] as int, order[j] as int));
        }
    }
}

/// Two orders of time of the same events agree in their first `upto` places.
proof fn lemma_time_orders_agree(events: Seq<Event>, a: Seq<usize>, b: Seq<usize>, upto: int)
    requires
        is_time_order(events, a),
        is_time_order(events, b),
        0 <= upto <= events.len(),
    ensures
        forall|i: int| 0 <= i < upto ==> a[i] == b[i],
    decreases upto,
{
    if upto > 0 {
        lemma_time_orders_agree(events, a, b, upto - 1);
        let i = upto - 1;
        if a[i] != b[i] {
            assert(b.contains(a[i]));
            let p = choose|p: int| 0 <= p < b.len() && b[p] == a[i];
            if p < i {
                assert(comes_before(events, a[p] as int, a[i] as int));
            }
            assert(comes_before(events, b[i] as int, b[p] as int));
            assert(a.contains(b[i]));
            let q = choose|q: int| 0 <= q < a.len() && a[q] == b[i];
            if q < i {
                assert(comes_before(events, b[q] as int, b[i] as int));
            }
            assert(comes_before(events, a[i] as int, a[q] as int));
        }
    }
}

/// The events of a day have one order of time only: it is fixed by the times
/// and, where times are equal, by the places in the list.
pub proof fn lemma_time_order_is_unique(events: Seq<Event>, a: Seq<usize>, b: Seq<usize>)
    requires
        is_time_order(events, a),
        is_time_order(events, b),
    ensures
        a == b,
{
    lemma_time_orders_agree(events, a, b, events.len() as int);
}

/// Putting the event at position `count` into an order of the `count` events
/// before it, behind every event that is not later than it, gives an order of
/// the first `count + 1` events.
proof fn lemma_insert_keeps_order(events: Seq<Event>, order: Seq<usize>, count: int, pos: int)
    requires
        0 <= count < events.len(),
        count < usize::MAX,
        orders_first(events, order, count),
        0 <= pos <= count,
        forall|i: int| pos <= i < count ==> events[order[i] as int].time@ > events[count].time@,
        pos > 0 ==> events[order[pos - 1] as int].time@ <= events[count].time@,
    ensures
        orders_first(events, order.insert(pos, count as usize), count + 1),
{
    let longer = order.insert(pos, count as usize);
    order.insert_ensures(pos, count as usize);
    assert forall|i: int, j: int| 0 <= i < j < count + 1 implies comes_before(
        events,
        longer[i] as int,
        longer[j] as int,
    ) by {
        if j == pos && i < pos - 1 {
            assert(comes_before(events, order[i] as int, order[pos - 1] as int));
        }
    }
    assert forall|k: usize| k < count + 1 implies #[trigger] longer.contains(k) by {
        if k < count {
            assert(order.contains(k));
            let i = choose|i: int| 0 <= i < order.len() && order[i] == k;
            if i < pos {
                assert(longer[i] == k);
            } else {
                assert(longer[i + 1] == k);
            }
        } else {
            assert(longer[pos] == k);
        }
    }
}

/// The positions of the events in order of time. Events of equal time keep
/// the order of the list.
pub fn time_order(events: &Vec<Event>) -> (order: Vec<usize>)
    ensures
        is_time_order(events@, order@),
{
    let mut order: Vec<usize> = Vec::new();
    let mut count: usize = 0;
    while count < events.len()
        invariant
            count <= events.len(),
            orders_first(events@, order@, count as int),
        decreases events.len() - count,
    {
        let mut pos: usize = count;
        while pos > 0 && events[order[pos - 1]].is_after(&events[count])
            invariant
                count < events.len(),
                pos <= count,
                orders_first(events@, order@, count as int),
                forall|i: int|
                    pos <= i < count ==> events@[order@[i] as int].time@
                        > events@[count as int].time@,
            decreases pos,
        {
            pos -= 1;
        }
        proof {
            lemma_insert_keeps_order(events@, order@, count as int, pos as int);
        }
        order.insert(pos, count);
        count += 1;
    }
    order
}

/// The first place in `order` whose event is not before the time `from`, found
/// by halving; it is the length of `order` where every event is before `from`.
pub fn lower_bound(events: &Vec<Event>, order: &Vec<usize>, from: TimeOfDay) -> (pos: usize)
    requires
        is_sorted_by_time(events@, order@),
    ensures
        pos <= order.len(),
        forall|i: int| 0 <= i < pos ==> events[(#[trigger] order[i]) as int].time@ < from@,
        forall|i: int|
            pos <= i < order.len() ==> events[(#[trigger] order[i]) as int].time@ >= from@,
{
    let target: u32 = from.seconds();
    let mut low: usize = 0;
    let mut high: usize = order.len();
    while low < high
        invariant
            low <= high <= order.len(),
            target == from@,
            is_sorted_by_time(events@, order@),
            forall|i: int| 0 <= i < low ==> events[(#[trigger] order[i]) as int].time@ < from@,
            forall|i: int|
                high <= i < order.len() ==> events[(#[trigger] order[i]) as int].time@ >= from@,
        decreases high - low,
    {
        let mid: usize = low + (high - low) / 2;
        if events[order[mid]].time.seconds() < target {
            low = mid + 1;
        } else {
            high = mid;
        }
    }
    low
}

/// The position in the list of the first event at or after the time `from`,
/// found by ordering the events and searching the order.
pub fn find_upcoming(events: &Vec<Event>, from: TimeOfDay) -> (found: Option<usize>)
    ensures
        match found {
            Some(k) => upcoming_first(events@, from@) == Some(k as int),
            None => upcoming_first(events@, from@) is None,
        },
{
    let order = time_order(events);
    proof {
        lemma_time_order_is_sorted(events@, order@);
    }
    let pos = lower_bound(events, &order, from);
    if pos < order.len() {
        let k = order[pos];
        proof {
            assert forall|j: int|
                0 <= j < events.len() && j != k && (#[trigger] events@[j]).time@
                    >= from@ implies comes_before(events@, k as int, j) by {
                assert(order@.contains(j as usize));
            }
            lemma_upcoming_first_found(events@, from@, k as int);
        }
        Some(k)
    } else {
        proof {
            assert forall|j: int| 0 <= j < events.len() implies (#[trigger] events@[j]).time@
                < from@ by {
                assert(order@.contains(j as usize));
            }
            lemma_upcoming_first_exists(events@, from@);
        }
        None
    }
}

/// The position in the list of the first event of the day: the earliest one
/// and, among several that are the earliest, the one listed first.
pub fn find_earliest(events: &Vec<Event>) -> (found: Option<usize>)
    ensures
        match found {
            Some(k) => upcoming_first(events@, 0) == Some(k as int),
            None => events.len() == 0 && upcoming_first(events@, 0) is None,
        },
{
    if events.len() == 0 {
        proof {
            lemma_upcoming_first_exists(events@, 0);
        }
        return None;
    }
    let mut best: usize = 0;
    let mut next: usize = 1;
    while next < events.len()
        invariant
            best < next <= events.len(),
            forall|j: int| 0 <= j < next && j != best ==> comes_before(events@, best as int, j),
        decreases events.len() - next,
    {
        if events[next].time.seconds() < events[best].time.seconds() {
            assert forall|j: int| 0 <= j < next + 1 && j != next implies comes_before(
                events@,
                next as int,
                j,
            ) by {
                if j != best {
                    assert(comes_before(events@, best as int, j));
                }
            }
            best = next;
        }
        next += 1;
    }
    proof {
        lemma_time_is_not_negative(events@[best as int].time);
        lemma_upcoming_first_found(events@, 0, best as int);
    }
    Some(best)
}

} // verus!
