//! Naive (time-zone free) calendar values: weekdays, times of day and instants.
//!
//! An instant is a count of seconds. Day `n` of the proleptic Gregorian count in
//! which 0001-01-01 is day 1 covers the seconds `[n * 86400, (n + 1) * 86400)`.
use chrono::Datelike;
use vstd::arithmetic::div_mod::{
    lemma_add_mod_noop, lemma_fundamental_div_mod, lemma_hoist_over_denominator, lemma_mod_bound,
    lemma_mod_twice,
};
use vstd::prelude::*;

verus! {

/// Seconds in one calendar day.
pub const SECS_PER_DAY: i64 = 86400;

/// Seconds in one hour.
pub const SECS_PER_HOUR: i64 = 3600;

/// Largest magnitude of an instant on which the calendar queries compute.
pub const MAX_INSTANT: i64 = 4_000_000_000_000_000_000;

/// The day number of an instant.
pub open spec fn day_number(s: int) -> int {
    s / 86400
}

/// The seconds elapsed since midnight of the instant's day.
pub open spec fn time_of_day(s: int) -> int {
    s % 86400
}

/// The weekday of an instant, counted from Monday (0) to Sunday (6).
pub open spec fn weekday_index(s: int) -> int {
    (day_number(s) + 6) % 7
}

/// Midnight at the start of the instant's day.
pub open spec fn midnight_of(s: int) -> int {
    s - time_of_day(s)
}

/// Whether an instant lies within the range the calendar queries compute on.
pub open spec fn instant_in_range(s: int) -> bool {
    -MAX_INSTANT <= s <= MAX_INSTANT
}

/// An instant is its midnight plus its time of day, which stays below a day.
pub proof fn lemma_instant_parts(s: int)
    ensures
        s == 86400 * day_number(s) + time_of_day(s),
        0 <= time_of_day(s) < 86400,
        0 <= weekday_index(s) < 7,
{
    lemma_fundamental_div_mod(s, 86400);
    lemma_mod_bound(s, 86400);
    lemma_mod_bound(day_number(s) + 6, 7);
}

/// Moving an instant by whole days keeps its time of day and moves its day
/// number and its weekday along.
pub proof fn lemma_shift_days(s: int, k: int)
    ensures
        day_number(s + k * 86400) == day_number(s) + k,
        time_of_day(s + k * 86400) == time_of_day(s),
        weekday_index(s + k * 86400) == (weekday_index(s) + k) % 7,
{
    lemma_hoist_over_denominator(s, k, 86400);
    lemma_instant_parts(s);
    lemma_instant_parts(s + k * 86400);
    lemma_add_mod_noop(day_number(s) + 6, k, 7);
    lemma_mod_twice(day_number(s) + 6, 7);
    lemma_add_mod_noop(weekday_index(s), k, 7);
    lemma_mod_bound(k, 7);
}

/// A day of the week.
#[derive(Clone, Copy, Debug, PartialEq, Eq, Hash, Structural)]
pub enum Weekday {
    Mon,
    Tue,
    Wed,
    Thu,
    Fri,
    Sat,
    Sun,
}

impl Weekday {
    /// Position in the week, Monday being 0.
    pub open spec fn index(self) -> int {
        match self {
            Weekday::Mon => 0,
            Weekday::Tue => 1,
            Weekday::Wed => 2,
            Weekday::Thu => 3,
            Weekday::Fri => 4,
            Weekday::Sat => 5,
            Weekday::Sun => 6,
        }
    }

    /// Position in the week, Monday being 0.
    pub fn num_days_from_monday(self) -> (r: usize)
        ensures
            r == self.index(),
            r < 7,
    {
        match self {
            Weekday::Mon => 0,
            Weekday::Tue => 1,
            Weekday::Wed => 2,
            Weekday::Thu => 3,
            Weekday::Fri => 4,
            Weekday::Sat => 5,
            Weekday::Sun => 6,
        }
    }
}

/// A time of day with second resolution.
#[derive(Clone, Copy, Debug, PartialEq, Eq, Hash, Structural)]
pub struct TimeOfDay {
    /// Seconds since midnight, below 86400.
    pub secs: u32,
}

impl TimeOfDay {
    pub open spec fn wf(self) -> bool {
        self.secs < 86400
    }

    /// The time `hour:min:sec`.
    pub fn from_hms(hour: u32, min: u32, sec: u32) -> (r: TimeOfDay)
        requires
            hour < 24,
            min < 60,
            sec < 60,
        ensures
            r.wf(),
            r.secs == hour * 3600 + min * 60 + sec,
    {
        TimeOfDay { secs: hour * 3600 + min * 60 + sec }
    }
}

/// A naive instant: a count of seconds, see the module documentation.
#[derive(Clone, Copy, Debug, PartialEq, Eq, Hash, Structural)]
pub struct DateTime {
    pub secs: i64,
}

/// The instant on day `day` at `hour:min:sec`, when that time of day exists.
pub open spec fn instant_of(day: int, hour: int, min: int, sec: int) -> Option<DateTime> {
    if hour < 24 && min < 60 && sec < 60 {
        Some(DateTime { secs: (day * 86400 + hour * 3600 + min * 60 + sec) as i64 })
    } else {
        None
    }
}

/// The day number that chrono gives to a year, month and day of the proleptic
/// Gregorian calendar, or `None` where no such date exists.
pub uninterp spec fn ce_day_number(year: i32, month: u32, day: u32) -> Option<i32>;

/// Relies on chrono's `NaiveDate::from_ymd_opt` (the date, if it exists) and
/// `Datelike::num_days_from_ce` (its day number, 0001-01-01 being day 1).
#[verifier::external_body]
fn ce_day(year: i32, month: u32, day: u32) -> (r: Option<i32>)
    ensures
        r == ce_day_number(year, month, day),
{
    match chrono::NaiveDate::from_ymd_opt(year, month, day) {
        Some(date) => Some(date.num_days_from_ce()),
        None => None,
    }
}

impl DateTime {
    /// The instant on day number `day` at `hour:min:sec`; `None` where that time
    /// of day does not exist.
    pub fn from_ce_day_hms(day: i32, hour: u32, min: u32, sec: u32) -> (r: Option<DateTime>)
        ensures
            r == instant_of(day as int, hour as int, min as int, sec as int),
            r matches Some(t) ==> instant_in_range(t.secs as int),
    {
        if hour < 24 && min < 60 && sec < 60 {
            let secs: i64 = day as i64 * SECS_PER_DAY + (hour as i64) * SECS_PER_HOUR + (min as i64)
                * 60 + sec as i64;
            Some(DateTime { secs })
        } else {
            None
        }
    }

    /// The instant at `hour:min:sec` on the given calendar date; `None` where the
    /// date or the time of day does not exist.
    pub fn from_ymd_hms(year: i32, month: u32, day: u32, hour: u32, min: u32, sec: u32) -> (r:
        Option<DateTime>)
        ensures
            r == (match ce_day_number(year, month, day) {
                Some(d) => instant_of(d as int, hour as int, min as int, sec as int),
                None => None,
            }),
    {
        match ce_day(year, month, day) {
            Some(d) => DateTime::from_ce_day_hms(d, hour, min, sec),
            None => None,
        }
    }

    /// The instant's day number.
    pub fn day(&self) -> (r: i64)
        ensures
            r == day_number(self.secs as int),
    {
        match self.secs.checked_div_euclid(SECS_PER_DAY) {
            Some(d) => d,
            None => 0,
        }
    }

    /// The instant's time of day.
    pub fn time(&self) -> (r: TimeOfDay)
        ensures
            r.wf(),
            r.secs == time_of_day(self.secs as int),
    {
        match self.secs.checked_rem_euclid(SECS_PER_DAY) {
            Some(t) => TimeOfDay { secs: t as u32 },
            None => TimeOfDay { secs: 0 },
        }
    }

    /// The instant's weekday, as a position counted from Monday.
    pub fn weekday_index(&self) -> (r: usize)
        ensures
            r == weekday_index(self.secs as int),
            r < 7,
    {
        let d = self.day();
        match (d % 7 + 13).checked_rem_euclid(7) {
            Some(w) => w as usize,
            None => 0,
        }
    }
}

} // verus!
