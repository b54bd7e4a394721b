//! The seven days of the week.
use vstd::prelude::*;

use super::text::same_text;

verus! {

/// A day of the week, Monday first.
#[derive(Debug, Clone, Copy, PartialEq, Eq, Structural, Hash)]
pub enum Weekday {
    Monday,
    Tuesday,
    Wednesday,
    Thursday,
    Friday,
    Saturday,
    Sunday,
}

/// The days in their fixed order, Monday first.
pub open spec fn day_at(i: int) -> Weekday {
    if i == 0 { Weekday::Monday }
    else if i == 1 { Weekday::Tuesday }
    else if i == 2 { Weekday::Wednesday }
    else if i == 3 { Weekday::Thursday }
    else if i == 4 { Weekday::Friday }
    else if i == 5 { Weekday::Saturday }
    else { Weekday::Sunday }
}

/// The position of a day in the week, Monday being 0.
pub open spec fn day_index(d: Weekday) -> nat {
    match d {
        Weekday::Monday => 0,
        Weekday::Tuesday => 1,
        Weekday::Wednesday => 2,
        Weekday::Thursday => 3,
        Weekday::Friday => 4,
        Weekday::Saturday => 5,
        Weekday::Sunday => 6,
    }
}

/// The name of a day, spelled as its variant.
pub open spec fn day_name(d: Weekday) -> Seq<char> {
    match d {
        Weekday::Monday => seq!['M', 'o', 'n', 'd', 'a', 'y'],
        Weekday::Tuesday => seq!['T', 'u', 'e', 's', 'd', 'a', 'y'],
        Weekday::Wednesday => seq!['W', 'e', 'd', 'n', 'e', 's', 'd', 'a', 'y'],
        Weekday::Thursday => seq!['T', 'h', 'u', 'r', 's', 'd', 'a', 'y'],
        Weekday::Friday => seq!['F', 'r', 'i', 'd', 'a', 'y'],
        Weekday::Saturday => seq!['S', 'a', 't', 'u', 'r', 'd', 'a', 'y'],
        Weekday::Sunday => seq!['S', 'u', 'n', 'd', 'a', 'y'],
    }
}

/// The day whose name is `s` exactly, if any.
pub open spec fn day_of_name(s: Seq<char>) -> Option<Weekday> {
    if s == day_name(Weekday::Monday) { Some(Weekday::Monday) }
    else if s == day_name(Weekday::Tuesday) { Some(Weekday::Tuesday) }
    else if s == day_name(Weekday::Wednesday) { Some(Weekday::Wednesday) }
    else if s == day_name(Weekday::Thursday) { Some(Weekday::Thursday) }
    else if s == day_name(Weekday::Friday) { Some(Weekday::Friday) }
    else if s == day_name(Weekday::Saturday) { Some(Weekday::Saturday) }
    else if s == day_name(Weekday::Sunday) { Some(Weekday::Sunday) }
    else { None }
}

impl Weekday {
    /// The day's name, as `Monday`.
    pub fn name(&self) -> (r: &'static str)
        ensures
            r@ == day_name(*self),
    {
        match self {
            Weekday::Monday => {
                proof { reveal_strlit("Monday"); }
                "Monday"
            },
            Weekday::Tuesday => {
                proof { reveal_strlit("Tuesday"); }
                "Tuesday"
            },
            Weekday::Wednesday => {
                proof { reveal_strlit("Wednesday"); }
                "Wednesday"
            },
            Weekday::Thursday => {
                proof { reveal_strlit("Thursday"); }
                "Thursday"
            },
            Weekday::Friday => {
                proof { reveal_strlit("Friday"); }
                "Friday"
            },
            Weekday::Saturday => {
                proof { reveal_strlit("Saturday"); }
                "Saturday"
            },
            Weekday::Sunday => {
                proof { reveal_strlit("Sunday"); }
                "Sunday"
            },
        }
    }

    /// The day at position `i` of the week, Monday being 0.
    pub fn from_index(i: usize) -> (r: Weekday)
        requires
            i < 7,
        ensures
            r == day_at(i as int),
            day_index(r) == i,
    {
        if i == 0 { Weekday::Monday }
        else if i == 1 { Weekday::Tuesday }
        else if i == 2 { Weekday::Wednesday }
        else if i == 3 { Weekday::Thursday }
        else if i == 4 { Weekday::Friday }
        else if i == 5 { Weekday::Saturday }
        else { Weekday::Sunday }
    }

    /// The position of the day in the week, Monday being 0.
    pub fn index(&self) -> (r: usize)
        ensures
            r == day_index(*self),
            r < 7,
    {
        match self {
            Weekday::Monday => 0,
            Weekday::Tuesday => 1,
            Weekday::Wednesday => 2,
            Weekday::Thursday => 3,
            Weekday::Friday => 4,
            Weekday::Saturday => 5,
            Weekday::Sunday => 6,
        }
    }

    /// The day named `s`, spelled exactly as its variant (case counts).
    pub fn from_str(s: &str) -> (r: Result<Weekday, ()>)
        ensures
            match day_of_name(s@) {
                Some(d) => r == Ok::<Weekday, ()>(d),
                None => r is Err,
            },
    {
        let mut i: usize = 0;
        while i < 7
            invariant
                i <= 7,
                forall|k: int| 0 <= k < i ==> s@ != day_name(#[trigger] day_at(k)),
            decreases 7 - i,
        {
            let d = Weekday::from_index(i);
            if same_text(s, d.name()) {
                return Ok(d);
            }
            i = i + 1;
        }
        proof {
            assert(s@ != day_name(day_at(0)));
            assert(s@ != day_name(day_at(1)));
            assert(s@ != day_name(day_at(2)));
            assert(s@ != day_name(day_at(3)));
            assert(s@ != day_name(day_at(4)));
            assert(s@ != day_name(day_at(5)));
            assert(s@ != day_name(day_at(6)));
        }
        Err(())
    }
}

} // verus!
