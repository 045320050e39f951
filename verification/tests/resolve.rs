use classjoiner::{
    resolve_active, resolve_next_wakeup, Day, Event, Moment, TimeOfDay, Timetable, Wakeup,
};

fn at(hour: u32, minute: u32) -> TimeOfDay {
    TimeOfDay::from_hms(hour, minute, 0).unwrap()
}

fn event(hour: u32, minute: u32, name: &str) -> Event {
    Event { time: at(hour, minute), name: name.to_string() }
}

fn moment(day: Day, hour: u32, minute: u32) -> Moment {
    Moment { day, time: at(hour, minute) }
}

fn monday_math() -> Timetable {
    let mut timetable = Timetable::new();
    timetable.insert(Day::Monday, vec![event(9, 0, "math")]);
    timetable
}

const DAY: i64 = 86_400;
const HOUR: i64 = 3_600;
const MINUTE: i64 = 60;

#[test]
fn event_inside_the_lead_is_active() {
    let timetable = monday_math();
    assert_eq!(
        resolve_active(&timetable, 5, moment(Day::Monday, 8, 56)),
        Some(event(9, 0, "math"))
    );
}

#[test]
fn event_beyond_the_lead_is_not_active() {
    let timetable = monday_math();
    assert_eq!(resolve_active(&timetable, 5, moment(Day::Monday, 8, 50)), None);
}

#[test]
fn event_is_active_at_the_edge_of_the_lead() {
    let timetable = monday_math();
    assert_eq!(
        resolve_active(&timetable, 5, moment(Day::Monday, 8, 55)),
        Some(event(9, 0, "math"))
    );
    let just_before = Moment { day: Day::Monday, time: TimeOfDay::from_hms(8, 54, 59).unwrap() };
    assert_eq!(resolve_active(&timetable, 5, just_before), None);
}

#[test]
fn event_is_active_at_its_own_time() {
    let timetable = monday_math();
    assert_eq!(
        resolve_active(&timetable, 5, moment(Day::Monday, 9, 0)),
        Some(event(9, 0, "math"))
    );
    assert_eq!(
        resolve_active(&timetable, 0, moment(Day::Monday, 9, 0)),
        Some(event(9, 0, "math"))
    );
}

#[test]
fn past_event_is_not_active() {
    let timetable = monday_math();
    let just_after = Moment { day: Day::Monday, time: TimeOfDay::from_hms(9, 0, 1).unwrap() };
    assert_eq!(resolve_active(&timetable, 5, just_after), None);
    assert_eq!(resolve_active(&timetable, 5, moment(Day::Monday, 23, 59)), None);
}

#[test]
fn event_of_another_day_is_not_active() {
    let timetable = monday_math();
    assert_eq!(resolve_active(&timetable, 5, moment(Day::Tuesday, 8, 56)), None);
    assert_eq!(resolve_active(&timetable, 5, moment(Day::Sunday, 8, 56)), None);
}

#[test]
fn event_just_after_midnight_is_not_active_the_evening_before() {
    let mut timetable = Timetable::new();
    timetable.insert(Day::Tuesday, vec![event(0, 2, "early")]);
    assert_eq!(resolve_active(&timetable, 5, moment(Day::Monday, 23, 58)), None);
}

#[test]
fn wait_runs_to_the_threshold() {
    let timetable = monday_math();
    assert_eq!(
        resolve_next_wakeup(&timetable, 5, moment(Day::Monday, 8, 50)),
        Some(Wakeup { delay_secs: 5 * MINUTE, event: event(9, 0, "math") })
    );
    assert_eq!(
        resolve_next_wakeup(&timetable, 5, moment(Day::Monday, 0, 0)),
        Some(Wakeup { delay_secs: 8 * HOUR + 55 * MINUTE, event: event(9, 0, "math") })
    );
}

#[test]
fn wait_is_zero_inside_the_window() {
    let timetable = monday_math();
    for minute in 55..60 {
        assert_eq!(
            resolve_next_wakeup(&timetable, 5, moment(Day::Monday, 8, minute)),
            Some(Wakeup { delay_secs: 0, event: event(9, 0, "math") })
        );
    }
    assert_eq!(
        resolve_next_wakeup(&timetable, 5, moment(Day::Monday, 9, 0)),
        Some(Wakeup { delay_secs: 0, event: event(9, 0, "math") })
    );
}

#[test]
fn wait_is_zero_where_the_lead_reaches_before_midnight() {
    let mut timetable = Timetable::new();
    timetable.insert(Day::Monday, vec![event(0, 10, "early")]);
    assert_eq!(
        resolve_next_wakeup(&timetable, 30, moment(Day::Monday, 0, 5)),
        Some(Wakeup { delay_secs: 0, event: event(0, 10, "early") })
    );
}

#[test]
fn active_event_has_no_wait() {
    let mut timetable = Timetable::new();
    timetable.insert(
        Day::Friday,
        vec![event(16, 30, "lab"), event(8, 15, "algebra"), event(12, 0, "lunch")],
    );
    for hour in 0..24 {
        for minute in 0..60 {
            let now = moment(Day::Friday, hour, minute);
            if let Some(active) = resolve_active(&timetable, 20, now) {
                assert_eq!(
                    resolve_next_wakeup(&timetable, 20, now),
                    Some(Wakeup { delay_secs: 0, event: active })
                );
            }
        }
    }
}

#[test]
fn active_event_lies_in_the_window() {
    let mut timetable = Timetable::new();
    timetable.insert(
        Day::Friday,
        vec![event(16, 30, "lab"), event(8, 15, "algebra"), event(12, 0, "lunch")],
    );
    let mut seen = 0;
    for hour in 0..24 {
        for minute in 0..60 {
            let now = moment(Day::Friday, hour, minute);
            if let Some(active) = resolve_active(&timetable, 20, now) {
                let gap = i64::from(active.time.seconds()) - i64::from(now.time.seconds());
                assert!(0 <= gap && gap <= 20 * MINUTE);
                seen += 1;
            }
        }
    }
    assert_eq!(seen, 3 * 21);
}

#[test]
fn walk_reaches_the_same_day_of_next_week_from_the_day_after() {
    let timetable = monday_math();
    assert_eq!(
        resolve_next_wakeup(&timetable, 1, moment(Day::Tuesday, 10, 0)),
        Some(Wakeup {
            delay_secs: 5 * DAY + 22 * HOUR + 59 * MINUTE,
            event: event(9, 0, "math"),
        })
    );
    assert_eq!(
        resolve_next_wakeup(&timetable, 5, moment(Day::Tuesday, 10, 0)),
        Some(Wakeup {
            delay_secs: 5 * DAY + 22 * HOUR + 55 * MINUTE,
            event: event(9, 0, "math"),
        })
    );
}

#[test]
fn walk_counts_whole_days_where_the_threshold_is_later_in_the_day() {
    let timetable = monday_math();
    assert_eq!(
        resolve_next_wakeup(&timetable, 5, moment(Day::Sunday, 8, 0)),
        Some(Wakeup { delay_secs: DAY + 55 * MINUTE, event: event(9, 0, "math") })
    );
    assert_eq!(
        resolve_next_wakeup(&timetable, 5, moment(Day::Thursday, 8, 55)),
        Some(Wakeup { delay_secs: 4 * DAY - 1 + 1, event: event(9, 0, "math") })
    );
}

#[test]
fn walk_counts_the_rest_of_the_day_where_the_threshold_is_earlier_in_the_day() {
    let timetable = monday_math();
    assert_eq!(
        resolve_next_wakeup(&timetable, 5, moment(Day::Sunday, 22, 0)),
        Some(Wakeup { delay_secs: 10 * HOUR + 55 * MINUTE, event: event(9, 0, "math") })
    );
}

#[test]
fn later_event_of_today_is_next() {
    let mut timetable = Timetable::new();
    timetable.insert(Day::Monday, vec![event(9, 0, "a"), event(14, 0, "b")]);
    assert_eq!(
        resolve_next_wakeup(&timetable, 5, moment(Day::Monday, 10, 0)),
        Some(Wakeup { delay_secs: 3 * HOUR + 55 * MINUTE, event: event(14, 0, "b") })
    );
    assert_eq!(resolve_active(&timetable, 5, moment(Day::Monday, 10, 0)), None);
}

#[test]
fn events_need_not_be_listed_in_order() {
    let mut timetable = Timetable::new();
    timetable.insert(
        Day::Wednesday,
        vec![
            event(18, 0, "choir"),
            event(7, 30, "run"),
            event(13, 0, "physics"),
            event(10, 0, "art"),
        ],
    );
    assert_eq!(
        resolve_next_wakeup(&timetable, 10, moment(Day::Wednesday, 8, 0)),
        Some(Wakeup { delay_secs: HOUR + 50 * MINUTE, event: event(10, 0, "art") })
    );
    assert_eq!(
        resolve_active(&timetable, 10, moment(Day::Wednesday, 12, 55)),
        Some(event(13, 0, "physics"))
    );
    assert_eq!(
        resolve_next_wakeup(&timetable, 10, moment(Day::Tuesday, 8, 0)),
        Some(Wakeup { delay_secs: DAY - 40 * MINUTE, event: event(7, 30, "run") })
    );
}

#[test]
fn today_comes_before_a_nearer_threshold_of_tomorrow() {
    let mut timetable = Timetable::new();
    timetable.insert(Day::Monday, vec![event(23, 0, "late")]);
    timetable.insert(Day::Tuesday, vec![event(0, 30, "early")]);
    assert_eq!(
        resolve_next_wakeup(&timetable, 0, moment(Day::Monday, 1, 0)),
        Some(Wakeup { delay_secs: 22 * HOUR, event: event(23, 0, "late") })
    );
}

#[test]
fn first_day_with_events_decides() {
    let mut timetable = Timetable::new();
    timetable.insert(Day::Thursday, vec![event(20, 0, "far")]);
    timetable.insert(Day::Saturday, vec![event(6, 0, "farther")]);
    assert_eq!(
        resolve_next_wakeup(&timetable, 15, moment(Day::Tuesday, 12, 0)),
        Some(Wakeup { delay_secs: 2 * DAY + 7 * HOUR + 45 * MINUTE, event: event(20, 0, "far") })
    );
    assert_eq!(
        resolve_next_wakeup(&timetable, 15, moment(Day::Thursday, 20, 1)),
        Some(Wakeup { delay_secs: DAY + 9 * HOUR + 44 * MINUTE, event: event(6, 0, "farther") })
    );
}

#[test]
fn walk_wraps_from_sunday_to_monday() {
    let timetable = monday_math();
    assert_eq!(
        resolve_next_wakeup(&timetable, 5, moment(Day::Sunday, 9, 0)),
        Some(Wakeup { delay_secs: DAY - 5 * MINUTE, event: event(9, 0, "math") })
    );
    assert_eq!(
        resolve_next_wakeup(&timetable, 5, moment(Day::Saturday, 9, 0)),
        Some(Wakeup { delay_secs: 2 * DAY - 5 * MINUTE, event: event(9, 0, "math") })
    );
}

#[test]
fn empty_timetable_resolves_to_nothing() {
    let timetable = Timetable::new();
    for day in [
        Day::Monday,
        Day::Tuesday,
        Day::Wednesday,
        Day::Thursday,
        Day::Friday,
        Day::Saturday,
        Day::Sunday,
    ] {
        assert_eq!(resolve_active(&timetable, 5, moment(day, 8, 56)), None);
        assert_eq!(resolve_next_wakeup(&timetable, 5, moment(day, 8, 56)), None);
    }
}

#[test]
fn empty_list_counts_as_no_entry() {
    let mut timetable = Timetable::new();
    timetable.insert(Day::Monday, vec![]);
    timetable.insert(Day::Tuesday, Vec::new());
    assert_eq!(resolve_active(&timetable, 5, moment(Day::Monday, 8, 56)), None);
    assert_eq!(resolve_next_wakeup(&timetable, 5, moment(Day::Monday, 8, 56)), None);
    timetable.insert(Day::Wednesday, vec![event(9, 0, "math")]);
    assert_eq!(
        resolve_next_wakeup(&timetable, 5, moment(Day::Monday, 8, 56)),
        Some(Wakeup { delay_secs: 2 * DAY - MINUTE, event: event(9, 0, "math") })
    );
}

#[test]
fn walk_does_not_come_back_to_today() {
    let timetable = monday_math();
    assert_eq!(resolve_next_wakeup(&timetable, 5, moment(Day::Monday, 10, 0)), None);
}

#[test]
fn first_listed_of_equal_times_is_taken() {
    let mut timetable = Timetable::new();
    timetable.insert(
        Day::Monday,
        vec![event(11, 0, "later"), event(9, 0, "first"), event(9, 0, "second")],
    );
    assert_eq!(
        resolve_active(&timetable, 5, moment(Day::Monday, 8, 58)),
        Some(event(9, 0, "first"))
    );
    assert_eq!(
        resolve_next_wakeup(&timetable, 5, moment(Day::Monday, 8, 0)),
        Some(Wakeup { delay_secs: 55 * MINUTE, event: event(9, 0, "first") })
    );
    assert_eq!(
        resolve_next_wakeup(&timetable, 5, moment(Day::Sunday, 8, 0)),
        Some(Wakeup { delay_secs: DAY + 55 * MINUTE, event: event(9, 0, "first") })
    );
}

#[test]
fn lead_of_more_than_a_day_can_put_the_threshold_in_the_past() {
    let timetable = monday_math();
    assert_eq!(
        resolve_next_wakeup(&timetable, 2 * 24 * 60, moment(Day::Sunday, 10, 0)),
        Some(Wakeup { delay_secs: -25 * HOUR, event: event(9, 0, "math") })
    );
    assert_eq!(
        resolve_next_wakeup(&timetable, 24 * 60, moment(Day::Saturday, 10, 0)),
        Some(Wakeup { delay_secs: 23 * HOUR, event: event(9, 0, "math") })
    );
}

#[test]
fn threshold_can_lie_before_midnight_of_the_day_of_the_event() {
    let mut timetable = Timetable::new();
    timetable.insert(Day::Tuesday, vec![event(0, 30, "early")]);
    assert_eq!(
        resolve_next_wakeup(&timetable, 90, moment(Day::Monday, 22, 0)),
        Some(Wakeup { delay_secs: HOUR, event: event(0, 30, "early") })
    );
    assert_eq!(
        resolve_next_wakeup(&timetable, 90, moment(Day::Monday, 23, 0)),
        Some(Wakeup { delay_secs: 0, event: event(0, 30, "early") })
    );
    assert_eq!(
        resolve_next_wakeup(&timetable, 90, moment(Day::Monday, 23, 30)),
        Some(Wakeup { delay_secs: -30 * MINUTE, event: event(0, 30, "early") })
    );
    assert_eq!(
        resolve_next_wakeup(&timetable, 90, moment(Day::Sunday, 23, 30)),
        Some(Wakeup { delay_secs: DAY - 30 * MINUTE, event: event(0, 30, "early") })
    );
}

#[test]
fn largest_lead_does_not_overflow() {
    let timetable = monday_math();
    assert_eq!(
        resolve_next_wakeup(&timetable, u32::MAX, moment(Day::Monday, 8, 0)),
        Some(Wakeup { delay_secs: 0, event: event(9, 0, "math") })
    );
    assert_eq!(
        resolve_active(&timetable, u32::MAX, moment(Day::Monday, 8, 0)),
        Some(event(9, 0, "math"))
    );
    assert_eq!(
        resolve_next_wakeup(&timetable, u32::MAX, moment(Day::Tuesday, 8, 0)),
        Some(Wakeup {
            delay_secs: 6 * DAY + 9 * HOUR - i64::from(u32::MAX) * MINUTE - 8 * HOUR,
            event: event(9, 0, "math"),
        })
    );
}

#[test]
fn seconds_count_in_the_wait() {
    let mut timetable = Timetable::new();
    timetable.insert(
        Day::Monday,
        vec![Event { time: TimeOfDay::from_hms(9, 0, 30).unwrap(), name: "math".to_string() }],
    );
    let now = Moment { day: Day::Monday, time: TimeOfDay::from_hms(8, 0, 45).unwrap() };
    assert_eq!(
        resolve_next_wakeup(&timetable, 5, now),
        Some(Wakeup {
            delay_secs: 54 * MINUTE + 45,
            event: Event { time: TimeOfDay::from_hms(9, 0, 30).unwrap(), name: "math".to_string() },
        })
    );
}

#[test]
fn resolution_leaves_the_timetable_as_it_was() {
    let mut timetable = Timetable::new();
    let listed = vec![event(18, 0, "choir"), event(7, 30, "run"), event(13, 0, "physics")];
    timetable.insert(Day::Wednesday, listed.clone());
    let _ = resolve_active(&timetable, 10, moment(Day::Wednesday, 12, 55));
    let _ = resolve_next_wakeup(&timetable, 10, moment(Day::Wednesday, 12, 55));
    assert_eq!(timetable.get(Day::Wednesday), Some(&listed));
}
