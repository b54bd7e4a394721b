//! Clock values: an hour and a minute within one day.
use vstd::prelude::*;

use core::cmp::Ordering;

use super::text::{index_of, count_char, is_numeral, numeral_value, read_numeral, scan_for};

verus! {

#[derive(Debug, Clone, Copy, PartialEq, Eq, Structural, Hash)]
struct Hour(u8);

#[derive(Debug, Clone, Copy, PartialEq, Eq, Structural, Hash)]
struct Minute(u8);

impl Hour {
    fn new(hour: u8) -> (r: Option<Hour>)
        ensures
            r == (if hour < 24 { Some(Hour(hour)) } else { None::<Hour> }),
    {
        if hour < 24 {
            Some(Hour(hour))
        } else {
            None
        }
    }
}

impl Minute {
    fn new(minute: u8) -> (r: Option<Minute>)
        ensures
            r == (if minute < 60 { Some(Minute(minute)) } else { None::<Minute> }),
    {
        if minute < 60 {
            Some(Minute(minute))
        } else {
            None
        }
    }
}

/// A time of day, from 00:00 to 23:59. Only valid values can be built.
#[derive(Debug, Clone, Copy, PartialEq, Eq, Structural, Hash)]
pub struct Time {
    hour: Hour,
    minute: Minute,
}

/// Minutes in one day: a time's minute count is always below this.
pub const MINUTES_PER_DAY: u32 = 1440;

/// The component of a time that a text was wrong about.
#[derive(Debug, Clone, Copy, PartialEq, Eq, Structural)]
pub enum TimeField {
    Hour,
    Minute,
}

/// Why a text is not a time in the form `HH:MM`.
#[derive(Debug, Clone, Copy, PartialEq, Eq, Structural)]
pub enum TimeParseError {
    /// The text does not split at `:` into exactly two parts.
    WrongTokenCount,
    /// A part is empty or holds something other than decimal digits.
    NotNumeric(TimeField),
    /// A part is a number, but too large for its field.
    OutOfRange(TimeField),
}

/// The decimal digit for `d`, which is below ten.
pub open spec fn digit_char(d: nat) -> char {
    if d == 0 { '0' }
    else if d == 1 { '1' }
    else if d == 2 { '2' }
    else if d == 3 { '3' }
    else if d == 4 { '4' }
    else if d == 5 { '5' }
    else if d == 6 { '6' }
    else if d == 7 { '7' }
    else if d == 8 { '8' }
    else { '9' }
}

/// `n`, below a hundred, written with exactly two digits.
pub open spec fn two_digit_text(n: nat) -> Seq<char> {
    seq![digit_char(n / 10), digit_char(n % 10)]
}

/// The text form `HH:MM` of a time.
pub open spec fn time_text(hour: nat, minute: nat) -> Seq<char> {
    two_digit_text(hour) + seq![':'] + two_digit_text(minute)
}

/// What reading `s` as a time gives: an (hour, minute) pair, or the first
/// thing wrong with it.
pub open spec fn parse_time_text(s: Seq<char>) -> Result<(nat, nat), TimeParseError> {
    if count_char(s, ':') != 1 {
        Err(TimeParseError::WrongTokenCount)
    } else {
        let p = index_of(s, ':');
        let h = s.subrange(0, p);
        let m = s.subrange(p + 1, s.len() as int);
        if !is_numeral(h) {
            Err(TimeParseError::NotNumeric(TimeField::Hour))
        } else if !is_numeral(m) {
            Err(TimeParseError::NotNumeric(TimeField::Minute))
        } else if numeral_value(h) >= 24 {
            Err(TimeParseError::OutOfRange(TimeField::Hour))
        } else if numeral_value(m) >= 60 {
            Err(TimeParseError::OutOfRange(TimeField::Minute))
        } else {
            Ok((numeral_value(h), numeral_value(m)))
        }
    }
}

/// Relies on std's `format!` with `{:02}`: a number below a hundred is
/// written as two decimal digits, with a leading zero where needed.
#[verifier::external_body]
fn two_digits(n: u8) -> (r: String)
    requires
        n < 100,
    ensures
        r@ == two_digit_text(n as nat),
{
    format!("{:02}", n)
}

impl Time {
    #[verifier::type_invariant]
    spec fn valid(self) -> bool {
        self.hour.0 < 24 && self.minute.0 < 60
    }

    pub closed spec fn spec_hour(self) -> nat {
        self.hour.0 as nat
    }

    pub closed spec fn spec_minute(self) -> nat {
        self.minute.0 as nat
    }

    /// Minutes since midnight.
    pub open spec fn spec_minutes(self) -> nat {
        self.spec_hour() * 60 + self.spec_minute()
    }

    /// Builds the time `hour:minute`, where it lies within a day.
    pub fn new(hour: u8, minute: u8) -> (r: Option<Time>)
        ensures
            r is Some <==> hour < 24 && minute < 60,
            r is Some ==> r->0.spec_hour() == hour && r->0.spec_minute() == minute,
    {
        let hour = Hour::new(hour)?;
        let minute = Minute::new(minute)?;
        Some(Time { hour, minute })
    }

    fn unpack(&self) -> (r: (u8, u8))
        ensures
            r.0 == self.spec_hour(),
            r.1 == self.spec_minute(),
            r.0 < 24,
            r.1 < 60,
    {
        proof {
            use_type_invariant(self);
        }
        (self.hour.0, self.minute.0)
    }

    /// Minutes since midnight: `hour * 60 + minute`.
    pub fn to_minutes(&self) -> (r: u16)
        ensures
            r == self.spec_minutes(),
            r < MINUTES_PER_DAY,
    {
        let (hour, minute) = self.unpack();
        minute as u16 + hour as u16 * 60
    }

    /// The time `duration` minutes later on the same day, if the day has not
    /// ended by then; there is no wrap past midnight.
    pub fn try_sum(&self, duration: u16) -> (r: Option<Time>)
        ensures
            r is Some <==> self.spec_minutes() + duration < MINUTES_PER_DAY,
            r is Some ==> {
                &&& r->0.spec_minutes() == self.spec_minutes() + duration
                &&& r->0.spec_hour() < 24
                &&& r->0.spec_hour() == (self.spec_minutes() + duration) / 60
                &&& r->0.spec_minute() == (self.spec_minutes() + duration) % 60
            },
    {
        let (hour, minute) = self.unpack();
        let total: u32 = minute as u32 + duration as u32;
        let carry: u32 = total / 60;
        let rest: u32 = total % 60;
        proof {
            assert(hour as int * 60 + total == (hour as int + carry) * 60 + rest) by (nonlinear_arith)
                requires
                    carry == total / 60,
                    rest == total % 60,
            ;
        }
        if hour as u32 + carry >= 24 {
            return None;
        }
        Time::new((hour as u32 + carry) as u8, rest as u8)
    }

    /// The hour, below 24.
    pub fn hour(&self) -> (r: u8)
        ensures
            r == self.spec_hour(),
            r < 24,
    {
        self.unpack().0
    }

    /// The minute, below 60.
    pub fn minute(&self) -> (r: u8)
        ensures
            r == self.spec_minute(),
            r < 60,
    {
        self.unpack().1
    }

    /// The time as text, `HH:MM` with two digits each.
    pub fn to_string(&self) -> (r: String)
        ensures
            r@ == time_text(self.spec_hour(), self.spec_minute()),
            r@ == time_text(self.spec_minutes() / 60, self.spec_minutes() % 60),
    {
        let (hour, minute) = self.unpack();
        proof {
            assert((hour * 60 + minute) / 60 == hour && (hour * 60 + minute) % 60 == minute as int) by (nonlinear_arith)
                requires minute < 60;
        }
        let mut text = two_digits(hour);
        let tail = two_digits(minute);
        proof {
            reveal_strlit(":");
        }
        text.append(":");
        text.append(tail.as_str());
        text
    }

    /// Reads a time written `H:M`, each part one or more decimal digits.
    pub fn from_str(s: &str) -> (r: Result<Time, TimeParseError>)
        ensures
            match parse_time_text(s@) {
                Ok((h, m)) => r is Ok && r->Ok_0.spec_hour() == h && r->Ok_0.spec_minute() == m,
                Err(e) => r == Err::<Time, TimeParseError>(e),
            },
    {
        let (count, first) = scan_for(s, ':');
        if count != 1 {
            return Err(TimeParseError::WrongTokenCount);
        }
        proof {
            super::text::lemma_index_of_found(s@, ':');
        }
        let p = first.unwrap();
        let n = s.unicode_len();
        let hour = match read_numeral(s, 0, p) {
            Some(v) => v,
            None => return Err(TimeParseError::NotNumeric(TimeField::Hour)),
        };
        let minute = match read_numeral(s, p + 1, n) {
            Some(v) => v,
            None => return Err(TimeParseError::NotNumeric(TimeField::Minute)),
        };
        if hour >= 24 {
            return Err(TimeParseError::OutOfRange(TimeField::Hour));
        }
        if minute >= 60 {
            return Err(TimeParseError::OutOfRange(TimeField::Minute));
        }
        Ok(Time::new(hour as u8, minute as u8).unwrap())
    }
}

impl PartialOrd for Time {
    fn partial_cmp(&self, other: &Time) -> (r: Option<Ordering>) {
        let (h1, m1) = self.unpack();
        let (h2, m2) = other.unpack();
        if h1 < h2 {
            Some(Ordering::Less)
        } else if h1 > h2 {
            Some(Ordering::Greater)
        } else if m1 < m2 {
            Some(Ordering::Less)
        } else if m1 > m2 {
            Some(Ordering::Greater)
        } else {
            Some(Ordering::Equal)
        }
    }
}

impl vstd::std_specs::cmp::PartialOrdSpecImpl for Time {
    open spec fn obeys_partial_cmp_spec() -> bool {
        true
    }

    /// Hour first, then minute.
    open spec fn partial_cmp_spec(&self, other: &Time) -> Option<Ordering> {
        if self.spec_hour() < other.spec_hour() {
            Some(Ordering::Less)
        } else if self.spec_hour() > other.spec_hour() {
            Some(Ordering::Greater)
        } else if self.spec_minute() < other.spec_minute() {
            Some(Ordering::Less)
        } else if self.spec_minute() > other.spec_minute() {
            Some(Ordering::Greater)
        } else {
            Some(Ordering::Equal)
        }
    }
}

} // verus!
