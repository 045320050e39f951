//! The days of the week, as a cycle that starts on Monday.

use vstd::prelude::*;
use vstd::string::StringExecFns;

verus! {

/// A day of the week.
#[derive(Clone, Copy, Debug, PartialEq, Eq, Structural, Hash)]
pub enum Day {
    Monday,
    Tuesday,
    Wednesday,
    Thursday,
    Friday,
    Saturday,
    Sunday,
}

impl Day {
    /// The position of the day in the week, Monday being 0 and Sunday 6.
    pub open spec fn index(self) -> int {
        match self {
            Day::Monday => 0,
            Day::Tuesday => 1,
            Day::Wednesday => 2,
            Day::Thursday => 3,
            Day::Friday => 4,
            Day::Saturday => 5,
            Day::Sunday => 6,
        }
    }

    /// The day after this one; Monday follows Sunday.
    pub open spec fn successor(self) -> Day {
        match self {
            Day::Monday => Day::Tuesday,
            Day::Tuesday => Day::Wednesday,
            Day::Wednesday => Day::Thursday,
            Day::Thursday => Day::Friday,
            Day::Friday => Day::Saturday,
            Day::Saturday => Day::Sunday,
            Day::Sunday => Day::Monday,
        }
    }

    /// The day reached by walking `steps` days forward from this one.
    pub open spec fn advance(self, steps: nat) -> Day
        decreases steps,
    {
        if steps == 0 {
            self
        } else {
            self.advance((steps - 1) as nat).successor()
        }
    }

    /// The day after this one; Monday follows Sunday.
    pub fn next(&self) -> (following: Day)
        ensures
            following == self.successor(),
    {
        match self {
            Day::Monday => Day::Tuesday,
            Day::Tuesday => Day::Wednesday,
            Day::Wednesday => Day::Thursday,
            Day::Thursday => Day::Friday,
            Day::Friday => Day::Saturday,
            Day::Saturday => Day::Sunday,
            Day::Sunday => Day::Monday,
        }
    }

    /// The position of the day in the week, Monday being 0 and Sunday 6.
    pub fn number(&self) -> (n: u8)
        ensures
            n == self.index(),
            n < 7,
    {
        match self {
            Day::Monday => 0,
            Day::Tuesday => 1,
            Day::Wednesday => 2,
            Day::Thursday => 3,
            Day::Friday => 4,
            Day::Saturday => 5,
            Day::Sunday => 6,
        }
    }

    /// The day at position `n` of the week, if `n` is below 7.
    pub fn from_number(n: u8) -> (day: Option<Day>)
        ensures
            n < 7 ==> day is Some && day->0.index() == n,
            n >= 7 ==> day is None,
    {
        match n {
            0 => Some(Day::Monday),
            1 => Some(Day::Tuesday),
            2 => Some(Day::Wednesday),
            3 => Some(Day::Thursday),
            4 => Some(Day::Friday),
            5 => Some(Day::Saturday),
            6 => Some(Day::Sunday),
            _ => None,
        }
    }
}

/// The position of a day lies in the week, and no two days share a position.
pub proof fn lemma_index_is_injective(a: Day, b: Day)
    ensures
        0 <= a.index() < 7,
        a.index() == b.index() ==> a == b,
{
}

/// Walking forward moves the position of the day by as many places, counted
/// around the week.
pub proof fn lemma_advance_index(day: Day, steps: nat)
    ensures
        day.advance(steps).index() == (day.index() + steps) % 7,
    decreases steps,
{
    if steps > 0 {
        lemma_advance_index(day, (steps - 1) as nat);
    }
}

/// Walking forward seven days from any day returns to that day.
pub proof fn lemma_week_is_a_cycle(day: Day)
    ensures
        day.advance(7) == day,
        day.successor().successor().successor().successor().successor().successor().successor()
            == day,
{
    lemma_advance_index(day, 7);
    lemma_index_is_injective(day.advance(7), day);
}

/// The number of days to walk forward from `from` until `to` is reached for
/// the first time.
pub open spec fn days_between(from: Day, to: Day) -> nat {
    ((to.index() - from.index()) % 7) as nat
}

/// A walk of less than a week from any day reaches every day, each of them
/// once: the day itself at the start, and the six others after one to six
/// days.
pub proof fn lemma_walk_reaches_every_day(from: Day, to: Day)
    ensures
        days_between(from, to) < 7,
        days_between(from, to) == 0 <==> from == to,
        from.advance(days_between(from, to)) == to,
        forall|steps: nat|
            steps < 7 && #[trigger] from.advance(steps) == to ==> steps == days_between(from, to),
{
    lemma_advance_index(from, days_between(from, to));
    lemma_index_is_injective(from.advance(days_between(from, to)), to);
    assert forall|steps: nat| steps < 7 && #[trigger] from.advance(steps) == to implies steps
        == days_between(from, to) by {
        lemma_advance_index(from, steps);
    }
}

/// The days of the week as `chrono` names them: `chrono::Weekday`, an enum of
/// seven variants without fields, from `Mon` to `Sun`. Its variants are read
/// from `chrono` itself, and nothing more is taken for granted of them.
#[verifier::external_type_specification]
pub struct ExWeekday(chrono::Weekday);

impl From<chrono::Weekday> for Day {
    /// The day that `chrono` knows by the given name.
    fn from(day: chrono::Weekday) -> (converted: Day) {
        match day {
            chrono::Weekday::Mon => Day::Monday,
            chrono::Weekday::Tue => Day::Tuesday,
            chrono::Weekday::Wed => Day::Wednesday,
            chrono::Weekday::Thu => Day::Thursday,
            chrono::Weekday::Fri => Day::Friday,
            chrono::Weekday::Sat => Day::Saturday,
            chrono::Weekday::Sun => Day::Sunday,
        }
    }
}

impl vstd::std_specs::convert::FromSpecImpl<chrono::Weekday> for Day {
    open spec fn obeys_from_spec() -> bool {
        true
    }

    open spec fn from_spec(day: chrono::Weekday) -> Day {
        match day {
            chrono::Weekday::Mon => Day::Monday,
            chrono::Weekday::Tue => Day::Tuesday,
            chrono::Weekday::Wed => Day::Wednesday,
            chrono::Weekday::Thu => Day::Thursday,
            chrono::Weekday::Fri => Day::Friday,
            chrono::Weekday::Sat => Day::Saturday,
            chrono::Weekday::Sun => Day::Sunday,
        }
    }
}

/// The error of a text that is not the short name of a day.
#[derive(Debug, Clone, PartialEq, Eq)]
pub struct InvalidDay {
    /// The text as it was given.
    pub text: String,
}

impl InvalidDay {
    /// The words that report the error: `invalid day`, a space, and the text
    /// as it was given.
    pub fn message(&self) -> (message: String)
        ensures
            message@ == "invalid day "@ + self.text@,
    {
        String::from_str("invalid day ").concat(self.text.as_str())
    }
}

/// The short name of a day, as a timetable is keyed by it.
pub open spec fn short_name(day: Day) -> Seq<char> {
    match day {
        Day::Monday => "mon"@,
        Day::Tuesday => "teu"@,
        Day::Wednesday => "wed"@,
        Day::Thursday => "thu"@,
        Day::Friday => "fri"@,
        Day::Saturday => "sat"@,
        Day::Sunday => "sun"@,
    }
}

/// The day that `text` is the short name of, if it is one.
pub open spec fn day_named(text: Seq<char>) -> Option<Day> {
    if text == "mon"@ {
        Some(Day::Monday)
    } else if text == "teu"@ {
        Some(Day::Tuesday)
    } else if text == "wed"@ {
        Some(Day::Wednesday)
    } else if text == "thu"@ {
        Some(Day::Thursday)
    } else if text == "fri"@ {
        Some(Day::Friday)
    } else if text == "sat"@ {
        Some(Day::Saturday)
    } else if text == "sun"@ {
        Some(Day::Sunday)
    } else {
        None
    }
}

/// Whether `text` reads exactly as `word` does.
fn reads_as(text: &String, word: &str) -> (same: bool)
    ensures
        same == (text@ == word@),
{
    *text == String::from_str(word)
}

impl TryFrom<String> for Day {
    type Error = InvalidDay;

    /// The day that `value` is the short name of. Any other text is handed
    /// back in the error.
    fn try_from(value: String) -> (day: Result<Day, InvalidDay>) {
        if reads_as(&value, "mon") {
            Ok(Day::Monday)
        } else if reads_as(&value, "teu") {
            Ok(Day::Tuesday)
        } else if reads_as(&value, "wed") {
            Ok(Day::Wednesday)
        } else if reads_as(&value, "thu") {
            Ok(Day::Thursday)
        } else if reads_as(&value, "fri") {
            Ok(Day::Friday)
        } else if reads_as(&value, "sat") {
            Ok(Day::Saturday)
        } else if reads_as(&value, "sun") {
            Ok(Day::Sunday)
        } else {
            Err(InvalidDay { text: value })
        }
    }
}

impl vstd::std_specs::convert::TryFromSpecImpl<String> for Day {
    open spec fn obeys_try_from_spec() -> bool {
        true
    }

    open spec fn try_from_spec(value: String) -> Result<Day, InvalidDay> {
        match day_named(value@) {
            Some(day) => Ok(day),
            None => Err(InvalidDay { text: value }),
        }
    }
}

/// Every day is the day that its short name names: no two days share one.
pub proof fn lemma_short_names_are_distinct(day: Day)
    ensures
        day_named(short_name(day)) == Some(day),
        short_name(day).len() == 3,
{
    reveal_strlit("mon");
    reveal_strlit("teu");
    reveal_strlit("wed");
    reveal_strlit("thu");
    reveal_strlit("fri");
    reveal_strlit("sat");
    reveal_strlit("sun");
    assert("mon"@[0] == 'm' && "teu"@[0] == 't' && "wed"@[0] == 'w' && "fri"@[0] == 'f');
    assert("thu"@[1] == 'h' && "teu"@[1] == 'e');
    assert("sat"@[1] == 'a' && "sun"@[1] == 'u' && "sat"@[0] == 's');
}

} // verus!
