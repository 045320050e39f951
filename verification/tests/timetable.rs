use classjoiner::{Day, Event, TimeOfDay, Timetable};

fn event(hour: u32, minute: u32, name: &str) -> Event {
    Event { time: TimeOfDay::from_hms(hour, minute, 0).unwrap(), name: name.to_string() }
}

#[test]
fn new_timetable_has_no_entry() {
    let timetable = Timetable::new();
    assert_eq!(timetable.get(Day::Monday), None);
    assert_eq!(timetable.get(Day::Sunday), None);
    assert_eq!(Timetable::default().get(Day::Friday), None);
}

#[test]
fn entry_is_kept_as_listed() {
    let mut timetable = Timetable::new();
    let listed = vec![event(14, 0, "b"), event(9, 0, "a")];
    assert_eq!(timetable.insert(Day::Tuesday, listed.clone()), None);
    assert_eq!(timetable.get(Day::Tuesday), Some(&listed));
    assert_eq!(timetable.get(Day::Monday), None);
    assert_eq!(timetable.get(Day::Wednesday), None);
}

#[test]
fn entry_is_replaced() {
    let mut timetable = Timetable::new();
    let first = vec![event(9, 0, "a")];
    let second = vec![event(10, 0, "b"), event(11, 0, "c")];
    timetable.insert(Day::Sunday, first.clone());
    assert_eq!(timetable.insert(Day::Sunday, second.clone()), Some(first));
    assert_eq!(timetable.get(Day::Sunday), Some(&second));
}

#[test]
fn copy_has_the_same_entries() {
    let mut timetable = Timetable::new();
    timetable.insert(Day::Thursday, vec![event(9, 0, "a")]);
    let mut copy = timetable.clone();
    assert_eq!(copy.get(Day::Thursday), timetable.get(Day::Thursday));
    copy.insert(Day::Thursday, vec![]);
    assert_eq!(timetable.get(Day::Thursday), Some(&vec![event(9, 0, "a")]));
}

#[test]
fn copy_of_an_event_is_equal_to_it() {
    let math = event(9, 0, "math");
    assert_eq!(math.clone(), math);
}
