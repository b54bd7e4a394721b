//! The week plan: a grid of equal time slots shared by all seven days, and
//! the activities booked in it.
use vstd::prelude::*;

pub mod html;
pub mod text;
pub mod time;
pub mod weekday;

pub use time::Time;
pub use weekday::Weekday;

use text::{index_of, scan_for};
use time::{parse_time_text, time_text, TimeParseError, MINUTES_PER_DAY};
use weekday::{day_at, day_index, day_name, day_of_name};

verus! {

/// The label of a booked slot; an empty label marks a free cell in a table.
pub type Activity = String;

/// The address of a booking: a weekday and the time its slot begins.
#[derive(Debug, Clone, Copy, PartialEq, Eq, Structural, Hash)]
pub struct Slot(pub Weekday, pub Time);

/// Why a text is not a slot key `<Weekday> <HH:MM>`.
#[derive(Debug, Clone, Copy, PartialEq, Eq, Structural)]
pub enum SlotParseError {
    /// There is no space between a weekday and a time.
    MissingTime,
    /// What stands before the space is not the name of a weekday.
    InvalidWeekday,
    /// What stands after the space is not a time.
    InvalidTime(TimeParseError),
}

/// The text form of a slot key: the weekday's name, a space, the time.
pub open spec fn slot_text(s: Slot) -> Seq<char> {
    day_name(s.0) + seq![' '] + time_text(s.1.spec_hour(), s.1.spec_minute())
}

/// What reading `s` as a slot key gives: the weekday and the (hour, minute)
/// of its time, or the first thing wrong with it. The key splits at its
/// first space.
pub open spec fn parse_slot_text(s: Seq<char>) -> Result<(Weekday, (nat, nat)), SlotParseError> {
    let p = index_of(s, ' ');
    if p < 0 {
        Err(SlotParseError::MissingTime)
    } else {
        match day_of_name(s.subrange(0, p)) {
            None => Err(SlotParseError::InvalidWeekday),
            Some(d) => match parse_time_text(s.subrange(p + 1, s.len() as int)) {
                Err(e) => Err(SlotParseError::InvalidTime(e)),
                Ok(t) => Ok((d, t)),
            },
        }
    }
}

impl Slot {
    /// The key as text, such as `Monday 08:30`.
    pub fn to_string(&self) -> (r: String)
        ensures
            r@ == slot_text(*self),
    {
        let mut text = String::from_str(self.0.name());
        proof {
            reveal_strlit(" ");
        }
        text.append(" ");
        let time = self.1.to_string();
        text.append(time.as_str());
        text
    }

    /// Reads a key written `<Weekday> <H:M>`.
    pub fn from_str(s: &str) -> (r: Result<Slot, SlotParseError>)
        ensures
            match parse_slot_text(s@) {
                Ok((d, (h, m))) => r is Ok && r->Ok_0.0 == d && r->Ok_0.1.spec_hour() == h
                    && r->Ok_0.1.spec_minute() == m,
                Err(e) => r == Err::<Slot, SlotParseError>(e),
            },
    {
        let (_count, first) = scan_for(s, ' ');
        let p = match first {
            Some(p) => p,
            None => return Err(SlotParseError::MissingTime),
        };
        proof {
            text::lemma_index_of_found(s@, ' ');
        }
        let n = s.unicode_len();
        let day = match Weekday::from_str(s.substring_char(0, p)) {
            Ok(day) => day,
            Err(()) => return Err(SlotParseError::InvalidWeekday),
        };
        match Time::from_str(s.substring_char(p + 1, n)) {
            Ok(time) => Ok(Slot(day, time)),
            Err(e) => Err(SlotParseError::InvalidTime(e)),
        }
    }
}

/// Why an insertion was refused.
#[derive(Debug, Clone, Copy, PartialEq, Eq, Structural)]
pub enum Error {
    /// The time is not the start of a slot of the grid.
    InvalidSlot(Time),
    /// The slot holds an activity already.
    AlreadyBooked(Slot),
    /// A slot of a range would begin after the end of the day.
    OutOfBounds,
}

/// The shape of a plan's grid: slot `k` begins `start + k * duration`
/// minutes after midnight, for `k` below `slots`.
pub struct Grid {
    pub start: nat,
    pub duration: nat,
    pub slots: nat,
}

impl Grid {
    /// The grid is usable: slots have a length, and the end of the last
    /// slot still lies within the day.
    pub open spec fn fits(self) -> bool {
        &&& self.duration > 0
        &&& self.start + self.slots * self.duration < MINUTES_PER_DAY
    }

    /// When slot `k` begins, in minutes since midnight.
    pub open spec fn slot_time(self, k: int) -> int {
        self.start + k * self.duration
    }

    /// The slot that a time (in minutes since midnight) falls in, counted
    /// from the start of the grid.
    pub open spec fn index_at(self, m: int) -> int {
        (m - self.start) / (self.duration as int)
    }

    /// A time begins a slot: it is not before the start, lies a whole number
    /// of slots after it, and that number is below the slot count.
    pub open spec fn on_grid(self, m: int) -> bool {
        &&& m >= self.start
        &&& (m - self.start) % (self.duration as int) == 0
        &&& self.index_at(m) < self.slots
    }
}

/// A time begins a slot of the grid exactly when it is `start + k * duration`
/// for some `k` below the slot count.
pub proof fn lemma_on_grid_iff(g: Grid, m: int)
    requires
        g.duration > 0,
    ensures
        g.on_grid(m) <==> exists|k: int| 0 <= k < g.slots && m == #[trigger] g.slot_time(k),
{
    let d = g.duration as int;
    if g.on_grid(m) {
        let k = g.index_at(m);
        vstd::arithmetic::div_mod::lemma_fundamental_div_mod(m - g.start, d);
        assert(m - g.start == d * k);
        assert(k >= 0) by {
            vstd::arithmetic::div_mod::lemma_div_pos_is_pos(m - g.start, d);
        }
        assert(m == g.slot_time(k)) by (nonlinear_arith)
            requires m - g.start == d * k, d == g.duration;
    }
    if exists|k: int| 0 <= k < g.slots && m == #[trigger] g.slot_time(k) {
        let k = choose|k: int| 0 <= k < g.slots && m == #[trigger] g.slot_time(k);
        lemma_index_of_slot_time(g, k);
    }
}

/// Slot `k` begins on the grid's step, `k` slots after the start.
pub proof fn lemma_index_of_slot_time(g: Grid, k: int)
    requires
        g.duration > 0,
        k >= 0,
    ensures
        g.slot_time(k) >= g.start,
        (g.slot_time(k) - g.start) % (g.duration as int) == 0,
        g.index_at(g.slot_time(k)) == k,
{
    let d = g.duration as int;
    assert(k * d >= 0) by (nonlinear_arith)
        requires k >= 0, d > 0;
    vstd::arithmetic::div_mod::lemma_fundamental_div_mod_converse(g.slot_time(k) - g.start, d, k, 0);
}

/// After a booking is accepted, its slot holds the label, and the slot is on
/// the grid, so that booking it again is refused as already booked.
pub proof fn lemma_insert_then_query(
    before: WeekPlan,
    after: WeekPlan,
    weekday: Weekday,
    slot: Time,
    label: Seq<char>,
)
    requires
        before.wf(),
        before.grid().on_grid(slot.spec_minutes() as int),
        !before.bookings().contains_key((weekday, before.grid().index_at(slot.spec_minutes() as int))),
        after.grid() == before.grid(),
        after.bookings() == before.bookings().insert(
            (weekday, before.grid().index_at(slot.spec_minutes() as int)),
            label,
        ),
    ensures
        after.grid().on_grid(slot.spec_minutes() as int),
        after.bookings().contains_key((weekday, after.grid().index_at(slot.spec_minutes() as int))),
        after.bookings()[(weekday, after.grid().index_at(slot.spec_minutes() as int))] == label,
        after.cell_label(weekday, after.grid().index_at(slot.spec_minutes() as int)) == label,
        forall|key: (Weekday, int)|
            key != (weekday, before.grid().index_at(slot.spec_minutes() as int)) ==> #[trigger] after.cell_label(
                key.0,
                key.1,
            ) == before.cell_label(key.0, key.1),
{
}

/// What becomes of one slot of a ranged insertion at time `t` (in minutes
/// since midnight), where `booked` holds the bookings before the range.
pub open spec fn range_step_ok(g: Grid, booked: Map<(Weekday, int), Seq<char>>, weekday: Weekday, t: int) -> bool {
    &&& t < MINUTES_PER_DAY
    &&& g.on_grid(t)
    &&& !booked.contains_key((weekday, g.index_at(t)))
}

/// The first slot, counting from `i`, at which a range of `len` slots from
/// `first` (in minutes since midnight) fails; `len` where none does.
pub open spec fn range_failure_from(
    g: Grid,
    booked: Map<(Weekday, int), Seq<char>>,
    weekday: Weekday,
    first: int,
    len: int,
    i: int,
) -> int
    decreases len - i,
{
    if i >= len {
        len
    } else if !range_step_ok(g, booked, weekday, first + i * g.duration) {
        i
    } else {
        range_failure_from(g, booked, weekday, first, len, i + 1)
    }
}

/// The bookings that a range of `n` slots from `first` adds, each holding
/// `label`.
pub open spec fn range_bookings(g: Grid, weekday: Weekday, first: int, n: int, label: Seq<char>) -> Map<
    (Weekday, int),
    Seq<char>,
> {
    Map::new(
        |key: (Weekday, int)| key.0 == weekday && g.index_at(first) <= key.1 < g.index_at(first) + n,
        |key: (Weekday, int)| label,
    )
}

/// Why a plan could not be rebuilt from its parts.
#[derive(Debug, Clone, Copy, PartialEq, Eq, Structural)]
pub enum LoadError {
    /// The grid does not fit in a day, or its slots have no length.
    InvalidGrid,
    /// A booking was refused; the slot it named, and why.
    Rejected(Slot, Error),
}

/// A booking as a slot and the characters of its label.
pub open spec fn booking_view(b: (Slot, Activity)) -> (Slot, Seq<char>) {
    (b.0, b.1@)
}

/// A list of bookings as slots and the characters of their labels.
pub open spec fn booking_views(l: Seq<(Slot, Activity)>) -> Seq<(Slot, Seq<char>)> {
    l.map_values(|b: (Slot, Activity)| booking_view(b))
}

/// The key under which a slot's booking is kept on grid `g`.
pub open spec fn key_on(g: Grid, s: Slot) -> (Weekday, int) {
    (s.0, g.index_at(s.1.spec_minutes() as int))
}

/// The bookings that inserting `list` in order, into an empty plan on grid
/// `g`, produces; `None` where an insertion is refused.
pub open spec fn loaded(g: Grid, list: Seq<(Slot, Seq<char>)>) -> Option<Map<(Weekday, int), Seq<char>>>
    decreases list.len(),
{
    if list.len() == 0 {
        Some(Map::empty())
    } else {
        match loaded(g, list.drop_last()) {
            None => None,
            Some(b) => {
                let (s, label) = list.last();
                if g.on_grid(s.1.spec_minutes() as int) && !b.contains_key(key_on(g, s)) {
                    Some(b.insert(key_on(g, s), label))
                } else {
                    None
                }
            },
        }
    }
}

/// A plan of fixed-length slots, the same for every weekday, each of which
/// holds at most one activity.
#[derive(Debug, PartialEq, Eq)]
pub struct WeekPlan {
    /// One cell per weekday and slot: the cell of day `d` and slot `k` is at
    /// `d * slots + k`.
    cells: Vec<Option<Activity>>,
    start: Time,
    slot_duration: u16,
    slots: u8,
}

/// The cell of weekday `d` and slot `k` lies within the grid's cells.
proof fn lemma_cell_in_range(d: int, k: int, n: int)
    requires
        0 <= d < 7,
        0 <= k < n,
    ensures
        0 <= d * n + k < 7 * n,
        d * n + k < (d + 1) * n,
        d * n <= d * n + k,
{
    assert(0 <= d * n + k < 7 * n) by (nonlinear_arith)
        requires 0 <= d < 7, 0 <= k < n;
    assert((d + 1) * n == d * n + n) by (nonlinear_arith);
}

/// Distinct weekday-and-slot pairs have distinct cells.
proof fn lemma_cell_unique(d1: int, k1: int, d2: int, k2: int, n: int)
    requires
        0 <= d1 < 7,
        0 <= d2 < 7,
        0 <= k1 < n,
        0 <= k2 < n,
        d1 * n + k1 == d2 * n + k2,
    ensures
        d1 == d2,
        k1 == k2,
{
    if d1 < d2 {
        assert(d1 * n + k1 < d2 * n) by (nonlinear_arith)
            requires d1 < d2, 0 <= k1 < n;
    } else if d2 < d1 {
        assert(d2 * n + k2 < d1 * n) by (nonlinear_arith)
            requires d2 < d1, 0 <= k2 < n;
    }
}

/// Filling the empty cell of `weekday` and slot `k` adds one booking.
proof fn lemma_bookings_after_set(before: WeekPlan, after: WeekPlan, weekday: Weekday, k: int, label: Seq<char>)
    requires
        before.wf(),
        0 <= k < before.slots,
        after.slots == before.slots,
        ({
            let idx = day_index(weekday) * before.slots + k;
            &&& after.cells@.len() == before.cells@.len()
            &&& after.cells@[idx] is Some
            &&& after.cells@[idx]->Some_0@ == label
            &&& forall|i: int| 0 <= i < before.cells@.len() && i != idx ==> after.cells@[i] == before.cells@[i]
        }),
    ensures
        after.bookings() == before.bookings().insert((weekday, k), label),
{
    let n = before.slots as int;
    let idx = day_index(weekday) * n + k;
    let key = (weekday, k);
    assert forall|other: (Weekday, int)| 0 <= other.1 < n && other != key implies
        day_index(other.0) * n + other.1 != idx by {
        if day_index(other.0) * n + other.1 == idx {
            lemma_cell_unique(day_index(other.0) as int, other.1, day_index(weekday) as int, k, n);
            assert(other.0 == weekday);
        }
    }
    assert forall|other: (Weekday, int)| 0 <= other.1 < n implies
        0 <= #[trigger] (day_index(other.0) * n + other.1) < 7 * n by {
        lemma_cell_in_range(day_index(other.0) as int, other.1, n);
    }
    assert(after.bookings() =~= before.bookings().insert(key, label));
}

/// Where the cell of a slot lies, by weekday, then time.
pub open spec fn cell_rank(g: Grid, s: Slot) -> int {
    day_index(s.0) * g.slots + g.index_at(s.1.spec_minutes() as int)
}

impl WeekPlan {
    /// The plan's grid.
    pub closed spec fn grid(&self) -> Grid {
        Grid {
            start: self.start.spec_minutes(),
            duration: self.slot_duration as nat,
            slots: self.slots as nat,
        }
    }

    /// The time at which the first slot of each day begins.
    pub closed spec fn spec_start(&self) -> Time {
        self.start
    }

    /// The plan's internal consistency: its grid fits in a day and there is
    /// one cell for each weekday and slot.
    pub closed spec fn wf(&self) -> bool {
        &&& self.grid().fits()
        &&& self.cells@.len() == 7 * self.slots
    }

    /// The bookings, keyed by weekday and slot index; every key lies on the
    /// grid.
    pub closed spec fn bookings(&self) -> Map<(Weekday, int), Seq<char>> {
        Map::new(
            |key: (Weekday, int)|
                0 <= key.1 < self.slots && self.cells@[day_index(key.0) * self.slots + key.1] is Some,
            |key: (Weekday, int)|
                self.cells@[day_index(key.0) * self.slots + key.1]->Some_0@,
        )
    }

    /// Every booking lies on the grid.
    pub proof fn lemma_bookings_on_grid(&self, key: (Weekday, int))
        requires
            self.bookings().contains_key(key),
        ensures
            0 <= key.1 < self.grid().slots,
    {
    }

    /// A new, empty plan whose slots of `slot_duration` minutes begin at
    /// `start`. There is none where the slots have no length, or where the
    /// last of them would end after 23:59.
    pub fn new(start: Time, slot_duration: u16, slots: u8) -> (r: Option<WeekPlan>)
        ensures
            r is Some <==> (Grid {
                start: start.spec_minutes(),
                duration: slot_duration as nat,
                slots: slots as nat,
            }).fits(),
            r is Some ==> {
                &&& r->0.wf()
                &&& r->0.grid() == (Grid {
                    start: start.spec_minutes(),
                    duration: slot_duration as nat,
                    slots: slots as nat,
                })
                &&& r->0.spec_start() == start
                &&& r->0.bookings() == Map::<(Weekday, int), Seq<char>>::empty()
            },
    {
        if slot_duration == 0 {
            return None;
        }
        proof {
            assert(slots as u32 * slot_duration as u32 <= 255 * 65535) by (nonlinear_arith)
                requires slots <= 255, slot_duration <= 65535;
        }
        let span: u32 = slots as u32 * slot_duration as u32;
        if span >= MINUTES_PER_DAY {
            return None;
        }
        start.try_sum(span as u16)?;
        let n: usize = 7 * slots as usize;
        let mut cells: Vec<Option<Activity>> = Vec::new();
        while cells.len() < n
            invariant
                cells@.len() <= n,
                forall|i: int| 0 <= i < cells@.len() ==> cells@[i] is None,
            decreases n - cells@.len(),
        {
            cells.push(None);
        }
        let plan = WeekPlan { cells, start, slot_duration, slots };
        proof {
            assert(plan.bookings() =~= Map::<(Weekday, int), Seq<char>>::empty()) by {
                assert forall|key: (Weekday, int)| !plan.bookings().contains_key(key) by {
                    if 0 <= key.1 < slots {
                        lemma_cell_in_range(day_index(key.0) as int, key.1, slots as int);
                    }
                }
            }
        }
        Some(plan)
    }

    /// Whether `slot` is the start time of one of the grid's slots.
    pub fn is_valid_slot(&self, slot: Time) -> (r: bool)
        requires
            self.wf(),
        ensures
            r == self.grid().on_grid(slot.spec_minutes() as int),
    {
        let slot = slot.to_minutes();
        let start = self.start.to_minutes();
        if slot < start {
            return false;
        }
        let distance: u16 = slot - start;
        let index: u16 = distance / self.slot_duration;
        distance % self.slot_duration == 0 && index < self.slots as u16
    }

    /// Where the cell of `weekday` and slot `k` lies.
    fn cell_of(&self, weekday: Weekday, k: usize) -> (r: usize)
        requires
            self.wf(),
            k < self.slots,
        ensures
            r == day_index(weekday) * self.grid().slots + k,
            r < self.cells@.len(),
    {
        proof {
            lemma_cell_in_range(day_index(weekday) as int, k as int, self.slots as int);
        }
        weekday.index() * self.slots as usize + k
    }

    /// The activity booked at `weekday` and `slot`, if any.
    pub fn activity_at(&self, weekday: Weekday, slot: Time) -> (r: Option<Activity>)
        requires
            self.wf(),
        ensures
            ({
                let key = (weekday, self.grid().index_at(slot.spec_minutes() as int));
                if self.grid().on_grid(slot.spec_minutes() as int) && self.bookings().contains_key(key) {
                    r is Some && r->0@ == self.bookings()[key]
                } else {
                    r is None
                }
            }),
    {
        if !self.is_valid_slot(slot) {
            return None;
        }
        let k: u16 = (slot.to_minutes() - self.start.to_minutes()) / self.slot_duration;
        let idx = self.cell_of(weekday, k as usize);
        match &self.cells[idx] {
            Some(a) => Some(a.clone()),
            None => None,
        }
    }

    /// Books `activity` at `weekday` and `slot`. Refused, with the plan left
    /// as it was, where `slot` is not on the grid or is booked already.
    pub fn try_insert(&mut self, weekday: Weekday, slot: Time, activity: Activity) -> (r: Result<(), Error>)
        requires
            old(self).wf(),
        ensures
            final(self).wf(),
            final(self).grid() == old(self).grid(),
            final(self).spec_start() == old(self).spec_start(),
            ({
                let m = slot.spec_minutes() as int;
                let key = (weekday, old(self).grid().index_at(m));
                if !old(self).grid().on_grid(m) {
                    r == Err::<(), Error>(Error::InvalidSlot(slot))
                        && final(self).bookings() == old(self).bookings()
                } else if old(self).bookings().contains_key(key) {
                    r == Err::<(), Error>(Error::AlreadyBooked(Slot(weekday, slot)))
                        && final(self).bookings() == old(self).bookings()
                } else {
                    r == Ok::<(), Error>(())
                        && final(self).bookings() == old(self).bookings().insert(key, activity@)
                }
            }),
    {
        if !self.is_valid_slot(slot) {
            return Err(Error::InvalidSlot(slot));
        }
        let k: u16 = (slot.to_minutes() - self.start.to_minutes()) / self.slot_duration;
        let idx = self.cell_of(weekday, k as usize);
        if self.cells[idx].is_some() {
            return Err(Error::AlreadyBooked(Slot(weekday, slot)));
        }
        let ghost before = *self;
        self.cells.set(idx, Some(activity));
        proof {
            lemma_bookings_after_set(before, *self, weekday, k as int, activity@);
        }
        Ok(())
    }

    /// The first slot at which booking `slots.1` consecutive slots of
    /// `weekday` from `slots.0` fails; `slots.1` where none does.
    pub open spec fn range_failure(&self, weekday: Weekday, slots: (Time, u8)) -> int {
        range_failure_from(self.grid(), self.bookings(), weekday, slots.0.spec_minutes() as int, slots.1 as int, 0)
    }

    /// When the slot at which such a range fails would begin.
    pub open spec fn range_failure_time(&self, weekday: Weekday, slots: (Time, u8)) -> int {
        slots.0.spec_minutes() + self.range_failure(weekday, slots) * self.grid().duration
    }

    /// The time at which the first slot of each day begins.
    pub fn start(&self) -> (r: Time)
        ensures
            r == self.spec_start(),
            r.spec_minutes() == self.grid().start,
    {
        self.start
    }

    /// The length of every slot, in minutes.
    pub fn slot_duration(&self) -> (r: u16)
        ensures
            r == self.grid().duration,
    {
        self.slot_duration
    }

    /// The number of slots in each day.
    pub fn slots(&self) -> (r: u8)
        ensures
            r == self.grid().slots,
    {
        self.slots
    }

    /// The label shown for `weekday` and slot `k`: the booked activity, or
    /// nothing.
    pub open spec fn cell_label(&self, weekday: Weekday, k: int) -> Seq<char> {
        if self.bookings().contains_key((weekday, k)) {
            self.bookings()[(weekday, k)]
        } else {
            Seq::empty()
        }
    }

    /// `list` holds each booking of the plan once, as its slot and label, in
    /// the order of weekday then time.
    pub open spec fn lists_bookings(&self, list: Seq<(Slot, Seq<char>)>) -> bool {
        let g = self.grid();
        &&& forall|i: int|
            0 <= i < list.len() ==> {
                let (s, label) = #[trigger] list[i];
                &&& g.on_grid(s.1.spec_minutes() as int)
                &&& self.bookings().contains_key(key_on(g, s))
                &&& self.bookings()[key_on(g, s)] == label
            }
        &&& forall|key: (Weekday, int)|
            #[trigger] self.bookings().contains_key(key) ==> exists|i: int|
                0 <= i < list.len() && key_on(g, (#[trigger] list[i]).0) == key
        &&& forall|i: int, j: int|
            0 <= i < j < list.len() ==> cell_rank(g, (#[trigger] list[i]).0) < cell_rank(g, (#[trigger] list[j]).0)
    }

    /// Books `activity` in `len` consecutive slots of `weekday`, the first at
    /// `start`, one after the other. It stops at the first slot that fails,
    /// and reports why; the slots booked before it stay booked.
    pub fn try_insert_range(&mut self, weekday: Weekday, slots: (Time, u8), activity: Activity) -> (r: Result<
        (),
        Error,
    >)
        requires
            old(self).wf(),
        ensures
            final(self).wf(),
            final(self).grid() == old(self).grid(),
            final(self).spec_start() == old(self).spec_start(),
            final(self).bookings() == old(self).bookings().union_prefer_right(
                range_bookings(
                    old(self).grid(),
                    weekday,
                    slots.0.spec_minutes() as int,
                    old(self).range_failure(weekday, slots),
                    activity@,
                ),
            ),
            old(self).range_failure(weekday, slots) == slots.1 ==> r == Ok::<(), Error>(()),
            old(self).range_failure(weekday, slots) < slots.1 ==> ({
                let g = old(self).grid();
                let t = old(self).range_failure_time(weekday, slots);
                &&& t >= MINUTES_PER_DAY ==> r == Err::<(), Error>(Error::OutOfBounds)
                &&& t < MINUTES_PER_DAY && !g.on_grid(t) ==> {
                    &&& r is Err
                    &&& r->Err_0 is InvalidSlot
                    &&& r->Err_0->InvalidSlot_0.spec_minutes() == t
                }
                &&& t < MINUTES_PER_DAY && g.on_grid(t) ==> {
                    &&& r is Err
                    &&& r->Err_0 is AlreadyBooked
                    &&& r->Err_0->AlreadyBooked_0.0 == weekday
                    &&& r->Err_0->AlreadyBooked_0.1.spec_minutes() == t
                }
            }),
    {
        let start = slots.0;
        let len = slots.1;
        let ghost g = self.grid();
        let ghost booked = self.bookings();
        let ghost first = start.spec_minutes() as int;
        let ghost label = activity@;
        let mut i: u8 = 0;
        proof {
            assert(booked.union_prefer_right(range_bookings(g, weekday, first, 0, label)) =~= booked);
        }
        while i < len
            invariant
                self.wf(),
                self.grid() == g,
                g == old(self).grid(),
                self.spec_start() == old(self).spec_start(),
                booked == old(self).bookings(),
                g.fits(),
                first == start.spec_minutes(),
                start == slots.0,
                len == slots.1,
                label == activity@,
                i <= len,
                range_failure_from(g, booked, weekday, first, len as int, 0)
                    == range_failure_from(g, booked, weekday, first, len as int, i as int),
                i > 0 ==> g.on_grid(first),
                self.bookings() == booked.union_prefer_right(range_bookings(g, weekday, first, i as int, label)),
            decreases len - i,
        {
            let ghost t = first + i * g.duration;
            let ghost k0 = g.index_at(first);
            proof {
                assert(range_failure_from(g, booked, weekday, first, len as int, i as int) == (if !range_step_ok(
                    g,
                    booked,
                    weekday,
                    t,
                ) {
                    i as int
                } else {
                    range_failure_from(g, booked, weekday, first, len as int, i + 1)
                }));
                assert(i as int * g.duration <= 255 * 65535) by (nonlinear_arith)
                    requires i <= 255, g.duration <= 65535;
            }
            let offset: u32 = i as u32 * self.slot_duration as u32;
            let ghost j = range_failure_from(g, booked, weekday, first, len as int, 0);
            if offset > 65535 {
                proof {
                    assert(t >= MINUTES_PER_DAY);
                    assert(j == i);
                }
                return Err(Error::OutOfBounds);
            }
            let time = match start.try_sum(offset as u16) {
                Some(time) => time,
                None => {
                    proof {
                        assert(t >= MINUTES_PER_DAY);
                        assert(j == i);
                    }
                    return Err(Error::OutOfBounds);
                },
            };
            proof {
                if g.on_grid(first) {
                    let kf = g.index_at(first);
                    lemma_on_grid_iff(g, first);
                    lemma_index_of_slot_time(g, kf);
                    assert(first == g.slot_time(kf)) by {
                        vstd::arithmetic::div_mod::lemma_fundamental_div_mod(first - g.start, g.duration as int);
                    }
                    assert(t == g.slot_time(kf + i)) by (nonlinear_arith)
                        requires first == g.slot_time(kf), t == first + i * g.duration, g.slot_time(kf) == g.start + kf * g.duration, g.slot_time(kf + i) == g.start + (kf + i) * g.duration;
                    assert(kf >= 0) by {
                        vstd::arithmetic::div_mod::lemma_div_pos_is_pos(first - g.start, g.duration as int);
                    }
                    lemma_index_of_slot_time(g, kf + i);
                }
                let key = (weekday, g.index_at(t));
                if g.on_grid(t) {
                    if i > 0 {
                        assert(g.index_at(t) == k0 + i);
                    } else {
                        assert(t == first);
                    }
                    assert(!range_bookings(g, weekday, first, i as int, label).contains_key(key));
                }
            }
            match self.try_insert(weekday, time, activity.clone()) {
                Ok(()) => {},
                Err(e) => {
                    proof {
                        assert(t < MINUTES_PER_DAY);
                        assert(time.spec_minutes() == t);
                        assert(!range_step_ok(g, booked, weekday, t));
                        assert(j == i);
                    }
                    return Err(e);
                },
            }
            proof {
                if i == 0 {
                    assert(t == first);
                }
                assert(g.index_at(t) == k0 + i);
                assert(self.bookings() =~= booked.union_prefer_right(
                    range_bookings(g, weekday, first, i + 1, label),
                ));
            }
            i = i + 1;
        }
        Ok(())
    }

    /// The table of the plan: the seven weekdays, Monday first; the start
    /// times of the slots, earliest first; and the label of each cell, day
    /// by day and within a day by time, empty where nothing is booked.
    pub fn to_table(&self) -> (r: (Vec<Weekday>, Vec<Time>, Vec<Activity>))
        requires
            self.wf(),
        ensures
            r.0@.len() == 7,
            forall|d: int| 0 <= d < 7 ==> r.0@[d] == day_at(d),
            r.1@.len() == self.grid().slots,
            forall|k: int| 0 <= k < self.grid().slots ==> (#[trigger] r.1@[k]).spec_minutes() == self.grid().slot_time(k),
            r.2@.len() == 7 * self.grid().slots,
            forall|d: int, k: int|
                0 <= d < 7 && 0 <= k < self.grid().slots ==> (#[trigger] r.2@[d * self.grid().slots + k])@
                    == self.cell_label(day_at(d), k),
    {
        let mut weekdays: Vec<Weekday> = Vec::new();
        let mut d: usize = 0;
        while d < 7
            invariant
                d <= 7,
                weekdays@.len() == d,
                forall|i: int| 0 <= i < d ==> weekdays@[i] == day_at(i),
            decreases 7 - d,
        {
            weekdays.push(Weekday::from_index(d));
            d = d + 1;
        }
        let ghost g = self.grid();
        let mut times: Vec<Time> = Vec::new();
        let mut k: u8 = 0;
        while k < self.slots
            invariant
                self.wf(),
                g == self.grid(),
                k <= self.slots,
                times@.len() == k,
                forall|i: int| 0 <= i < k ==> (#[trigger] times@[i]).spec_minutes() == g.slot_time(i),
            decreases self.slots - k,
        {
            proof {
                assert(k as int * g.duration <= g.slots * g.duration) by (nonlinear_arith)
                    requires k <= g.slots;
            }
            let offset: u16 = k as u16 * self.slot_duration;
            times.push(self.start.try_sum(offset).unwrap());
            k = k + 1;
        }
        let mut table: Vec<Activity> = Vec::new();
        let n = self.cells.len();
        let mut i: usize = 0;
        while i < n
            invariant
                n == self.cells@.len(),
                i <= n,
                table@.len() == i,
                forall|j: int|
                    0 <= j < i ==> (#[trigger] table@[j])@ == match self.cells@[j] {
                        Some(a) => a@,
                        None => Seq::<char>::empty(),
                    },
            decreases n - i,
        {
            match &self.cells[i] {
                Some(a) => table.push(a.clone()),
                None => table.push(String::new()),
            }
            i = i + 1;
        }
        proof {
            assert forall|d: int, k: int| 0 <= d < 7 && 0 <= k < g.slots implies (#[trigger] table@[d * g.slots + k])@
                == self.cell_label(day_at(d), k) by {
                lemma_cell_in_range(d, k, g.slots as int);
                assert(day_index(day_at(d)) == d);
            }
        }
        (weekdays, times, table)
    }

    /// Each booking of the plan once, as its slot and activity, by weekday
    /// and then by time.
    pub fn entries(&self) -> (r: Vec<(Slot, Activity)>)
        requires
            self.wf(),
        ensures
            self.lists_bookings(booking_views(r@)),
    {
        let ghost g = self.grid();
        let n: usize = self.slots as usize;
        let mut list: Vec<(Slot, Activity)> = Vec::new();
        let mut d: usize = 0;
        while d < 7
            invariant
                self.wf(),
                g == self.grid(),
                n == g.slots,
                d <= 7,
                ({
                    let v = booking_views(list@);
                    &&& forall|i: int|
                        0 <= i < v.len() ==> {
                            let (s, label) = #[trigger] v[i];
                            &&& g.on_grid(s.1.spec_minutes() as int)
                            &&& self.bookings().contains_key(key_on(g, s))
                            &&& self.bookings()[key_on(g, s)] == label
                            &&& cell_rank(g, s) < d * n
                        }
                    &&& forall|key: (Weekday, int)|
                        #[trigger] self.bookings().contains_key(key) && day_index(key.0) < d ==> exists|i: int|
                            0 <= i < v.len() && key_on(g, (#[trigger] v[i]).0) == key
                    &&& forall|i: int, j: int|
                        0 <= i < j < v.len() ==> cell_rank(g, (#[trigger] v[i]).0) < cell_rank(g, (#[trigger] v[j]).0)
                }),
            decreases 7 - d,
        {
            let weekday = Weekday::from_index(d);
            let mut k: usize = 0;
            while k < n
                invariant
                    self.wf(),
                    g == self.grid(),
                    n == g.slots,
                    d < 7,
                    k <= n,
                    weekday == day_at(d as int),
                    day_index(weekday) == d,
                    forall|i: int|
                        0 <= i < booking_views(list@).len() ==> {
                            let (s, label) = #[trigger] booking_views(list@)[i];
                            &&& g.on_grid(s.1.spec_minutes() as int)
                            &&& self.bookings().contains_key(key_on(g, s))
                            &&& self.bookings()[key_on(g, s)] == label
                            &&& cell_rank(g, s) < d * n + k
                        },
                    forall|key: (Weekday, int)|
                        #[trigger] self.bookings().contains_key(key) && (day_index(key.0) < d || (key.0 == weekday
                            && key.1 < k)) ==> exists|i: int|
                            0 <= i < booking_views(list@).len() && key_on(g, (#[trigger] booking_views(list@)[i]).0)
                                == key,
                    forall|i: int, j: int|
                        0 <= i < j < booking_views(list@).len() ==> cell_rank(g, (#[trigger] booking_views(list@)[i]).0)
                            < cell_rank(g, (#[trigger] booking_views(list@)[j]).0),
                decreases n - k,
            {
                let idx = self.cell_of(weekday, k);
                match &self.cells[idx] {
                    Some(a) => {
                        proof {
                            assert(k as int * g.duration <= g.slots * g.duration) by (nonlinear_arith)
                                requires k < g.slots;
                        }
                        let offset: u16 = k as u16 * self.slot_duration;
                        let time = self.start.try_sum(offset).unwrap();
                        let ghost old_v = booking_views(list@);
                        list.push((Slot(weekday, time), a.clone()));
                        proof {
                            let v = booking_views(list@);
                            let s = Slot(weekday, time);
                            lemma_index_of_slot_time(g, k as int);
                            lemma_on_grid_iff(g, time.spec_minutes() as int);
                            assert(g.slot_time(k as int) == time.spec_minutes());
                            assert(key_on(g, s) == (weekday, k as int));
                            assert(cell_rank(g, s) == d * n + k);
                            assert(v[v.len() - 1] == (s, a@));
                            assert(v.len() == old_v.len() + 1);
                            assert forall|i: int| 0 <= i < old_v.len() implies v[i] == #[trigger] old_v[i] by {}
                            assert(g.on_grid(s.1.spec_minutes() as int));
                            assert(self.bookings().contains_key(key_on(g, s)));
                            assert(self.bookings()[key_on(g, s)] == a@);
                            assert forall|i: int| 0 <= i < v.len() implies {
                                let (s2, label2) = #[trigger] v[i];
                                &&& g.on_grid(s2.1.spec_minutes() as int)
                                &&& self.bookings().contains_key(key_on(g, s2))
                                &&& self.bookings()[key_on(g, s2)] == label2
                                &&& cell_rank(g, s2) < d * n + k + 1
                            } by {
                                if i < old_v.len() {
                                    assert(v[i] == old_v[i]);
                                }
                            }
                            assert forall|i: int, j: int| 0 <= i < j < v.len() implies cell_rank(g, (#[trigger] v[i]).0)
                                < cell_rank(g, (#[trigger] v[j]).0) by {
                                assert(v[i] == old_v[i]);
                                if j < old_v.len() {
                                    assert(v[j] == old_v[j]);
                                }
                            }
                            assert forall|key: (Weekday, int)|
                                #[trigger] self.bookings().contains_key(key) && (day_index(key.0) < d || (key.0
                                    == weekday && key.1 < k + 1)) implies exists|i: int|
                                0 <= i < v.len() && key_on(g, (#[trigger] v[i]).0) == key by {
                                if key == (weekday, k as int) {
                                    assert(key_on(g, v[v.len() - 1].0) == key);
                                } else {
                                    let i = choose|i: int| 0 <= i < old_v.len() && key_on(g, (#[trigger] old_v[i]).0) == key;
                                    assert(v[i] == old_v[i]);
                                }
                            }
                        }
                    },
                    None => {
                        proof {
                            assert forall|i: int| 0 <= i < booking_views(list@).len() implies cell_rank(g, (#[trigger] booking_views(list@)[i]).0) < d * n + k + 1 by {}
                            assert(!self.bookings().contains_key((weekday, k as int)));
                            assert forall|key: (Weekday, int)|
                                #[trigger] self.bookings().contains_key(key) && day_index(key.0) == d implies key.0 == weekday by {}
                        }
                    },
                }
                k = k + 1;
            }
            proof {
                assert((d + 1) * n == d * n + n) by (nonlinear_arith);
            }
            d = d + 1;
        }
        list
    }

    /// Rebuilds a plan from its grid and its bookings, each booking going
    /// through the same checks as an insertion. The first booking refused
    /// stops the load, naming its slot.
    pub fn from_entries(start: Time, slot_duration: u16, slots: u8, entries: Vec<(Slot, Activity)>) -> (r: Result<WeekPlan, LoadError>)
        ensures
            ({
                let g = Grid { start: start.spec_minutes(), duration: slot_duration as nat, slots: slots as nat };
                let list = booking_views(entries@);
                &&& !g.fits() ==> r == Err::<WeekPlan, LoadError>(LoadError::InvalidGrid)
                &&& g.fits() && loaded(g, list) is Some ==> {
                    &&& r is Ok
                    &&& r->Ok_0.wf()
                    &&& r->Ok_0.grid() == g
                    &&& r->Ok_0.spec_start() == start
                    &&& r->Ok_0.bookings() == loaded(g, list)->0
                }
                &&& g.fits() && loaded(g, list) is None ==> {
                    &&& r is Err
                    &&& r->Err_0 is Rejected
                    &&& exists|j: int|
                        0 <= j < list.len() && loaded(g, list.take(j)) is Some && loaded(g, list.take(j + 1)) is None
                            && r->Err_0->Rejected_0 == (#[trigger] list[j]).0
                }
            }),
    {
        let mut plan = match WeekPlan::new(start, slot_duration, slots) {
            Some(plan) => plan,
            None => return Err(LoadError::InvalidGrid),
        };
        let ghost g = plan.grid();
        let ghost list = booking_views(entries@);
        let n = entries.len();
        let mut i: usize = 0;
        proof {
            assert(list.take(0) =~= Seq::<(Slot, Seq<char>)>::empty());
        }
        while i < n
            invariant
                plan.wf(),
                plan.grid() == g,
                plan.spec_start() == start,
                g == (Grid { start: start.spec_minutes(), duration: slot_duration as nat, slots: slots as nat }),
                n == entries@.len(),
                list == booking_views(entries@),
                i <= n,
                loaded(g, list.take(i as int)) == Some(plan.bookings()),
            decreases n - i,
        {
            let slot = entries[i].0;
            let activity = entries[i].1.clone();
            proof {
                assert(list.take(i + 1).drop_last() =~= list.take(i as int));
                assert(list.take(i + 1).last() == list[i as int]);
                assert(slot == entries@[i as int].0);
                assert(activity@ == entries@[i as int].1@);
            }
            match plan.try_insert(slot.0, slot.1, activity) {
                Ok(()) => {},
                Err(e) => {
                    proof {
                        assert(loaded(g, list.take(i + 1)) is None);
                        if loaded(g, list) is Some {
                            lemma_loaded_prefix(g, list, i + 1);
                        }
                    }
                    return Err(LoadError::Rejected(slot, e));
                },
            }
            i = i + 1;
        }
        proof {
            assert(list.take(n as int) =~= list);
        }
        Ok(plan)
    }
}

/// Where a whole list loads, so does each of its prefixes.
pub proof fn lemma_loaded_prefix(g: Grid, list: Seq<(Slot, Seq<char>)>, i: int)
    requires
        0 <= i <= list.len(),
        loaded(g, list) is Some,
    ensures
        loaded(g, list.take(i)) is Some,
    decreases list.len() - i,
{
    if i == list.len() {
        assert(list.take(i) =~= list);
    } else {
        assert(list.take(i + 1).drop_last() =~= list.take(i));
        if i + 1 == list.len() {
            assert(list.take(i + 1) =~= list);
        } else {
            lemma_loaded_prefix(g, list, i + 1);
        }
    }
}

/// The keys of the first `i` bookings of `list`.
pub open spec fn listed_keys(g: Grid, list: Seq<(Slot, Seq<char>)>, i: int) -> Set<(Weekday, int)> {
    Set::new(|key: (Weekday, int)| exists|l: int| 0 <= l < i && key_on(g, (#[trigger] list[l]).0) == key)
}

/// Inserting the first `i` bookings of a plan's list gives back the plan's
/// bookings under those keys.
proof fn lemma_round_trip_prefix(plan: WeekPlan, list: Seq<(Slot, Seq<char>)>, i: int)
    requires
        plan.wf(),
        plan.lists_bookings(list),
        0 <= i <= list.len(),
    ensures
        loaded(plan.grid(), list.take(i)) == Some(plan.bookings().restrict(listed_keys(plan.grid(), list, i))),
    decreases i,
{
    let g = plan.grid();
    let b = plan.bookings();
    if i == 0 {
        assert(list.take(0) =~= Seq::<(Slot, Seq<char>)>::empty());
        assert(b.restrict(listed_keys(g, list, 0)) =~= Map::<(Weekday, int), Seq<char>>::empty());
    } else {
        let j = i - 1;
        lemma_round_trip_prefix(plan, list, j);
        let (s, label) = list[j];
        let key = key_on(g, s);
        let before = b.restrict(listed_keys(g, list, j));
        assert(list.take(i).drop_last() =~= list.take(j));
        assert(list.take(i).last() == list[j]);
        if before.contains_key(key) {
            let l = choose|l: int| 0 <= l < j && key_on(g, (#[trigger] list[l]).0) == key;
            assert(cell_rank(g, list[l].0) < cell_rank(g, list[j].0));
        }
        assert(b.restrict(listed_keys(g, list, i)) =~= before.insert(key, label)) by {
            assert forall|k: (Weekday, int)| #[trigger] listed_keys(g, list, i).contains(k) <==> (listed_keys(
                g,
                list,
                j,
            ).contains(k) || k == key) by {
                if k == key {
                    assert(key_on(g, list[j].0) == k);
                }
            }
        }
    }
}

/// Listing a plan's bookings, and then inserting that list in order into an
/// empty plan of the same grid, gives back exactly the plan's bookings; and
/// with them the same table.
pub proof fn lemma_round_trip(plan: WeekPlan, list: Seq<(Slot, Seq<char>)>)
    requires
        plan.wf(),
        plan.lists_bookings(list),
    ensures
        loaded(plan.grid(), list) == Some(plan.bookings()),
{
    let g = plan.grid();
    let b = plan.bookings();
    let n = list.len() as int;
    lemma_round_trip_prefix(plan, list, n);
    assert(list.take(n) =~= list);
    assert(b.restrict(listed_keys(g, list, n)) =~= b) by {
        assert forall|k: (Weekday, int)| #[trigger] b.contains_key(k) implies listed_keys(g, list, n).contains(k) by {
            let l = choose|l: int| 0 <= l < list.len() && key_on(g, (#[trigger] list[l]).0) == k;
        }
    }
}

} // verus!
