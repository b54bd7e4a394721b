//! A weekly planner: a grid of fixed-length time slots, the same for every
//! weekday, in which activities are booked and from which a table is drawn.

pub mod weekplan;

pub use weekplan::{Activity, Error, Slot, Time, WeekPlan, Weekday};
