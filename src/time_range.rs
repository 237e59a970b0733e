//! A rate window: a recurring time-of-day interval, restricted to some weekdays.
use crate::calendar::{
    lemma_instant_parts, lemma_shift_days, midnight_of, time_of_day, weekday_index, DateTime,
    TimeOfDay, Weekday, MAX_INSTANT, SECS_PER_DAY,
};
use vstd::prelude::*;

verus! {

/// A time-of-day interval `[start, end)` that recurs on the valid weekdays. With
/// `start > end` it wraps past midnight: `[start, 24:00)` and `[00:00, end)`.
#[derive(Clone, Copy, Debug, PartialEq, Eq)]
pub struct TimeRange {
    pub start: TimeOfDay,
    pub end: TimeOfDay,
    /// Indexed by weekday, Monday first.
    pub valid_weekdays: [bool; 7],
}

/// An occurrence `(start, end)` of a window, as a pair of instants.
pub open spec fn span_of(r: Option<(DateTime, DateTime)>) -> Option<(int, int)> {
    match r {
        Some((s, e)) => Some((s.secs as int, e.secs as int)),
        None => None,
    }
}

impl TimeRange {
    /// Both bounds are times of day and at least one weekday is valid.
    pub open spec fn wf(self) -> bool {
        &&& self.start.wf()
        &&& self.end.wf()
        &&& exists|w: int| 0 <= w < 7 && #[trigger] self.valid_weekdays@[w]
    }

    pub open spec fn valid_on(self, w: int) -> bool {
        self.valid_weekdays@[w]
    }

    /// Whether the time of day `t` falls in the interval, whatever the weekday.
    pub open spec fn covers_time(self, t: int) -> bool {
        let (a, b) = (self.start.secs as int, self.end.secs as int);
        (a < b && a <= t && t < b) || (a > b && (t >= a || t < b))
    }

    /// Whether the window applies at instant `s`.
    pub open spec fn applies_at(self, s: int) -> bool {
        self.valid_on(weekday_index(s)) && self.covers_time(time_of_day(s))
    }

    /// The rest of the occurrence that holds instant `s`, weekdays aside. An
    /// occurrence that wraps past midnight is cut there.
    pub open spec fn occurrence_from(self, s: int) -> Option<(int, int)> {
        let (a, b) = (self.start.secs as int, self.end.secs as int);
        let t = time_of_day(s);
        let m = midnight_of(s);
        if a < b {
            if a <= t && t < b {
                Some((s, m + b))
            } else {
                None
            }
        } else if t < a && t > b {
            None
        } else if t >= a {
            Some((s, m + 86400))
        } else if t < b {
            Some((s, m + b))
        } else {
            None
        }
    }

    /// How many days past weekday `w`, from `k` on, the first valid weekday comes.
    pub open spec fn days_to_valid(self, w: int, k: int) -> int
        decreases 7 - k,
    {
        if k >= 7 {
            7
        } else if self.valid_on((w + k) % 7) {
            k
        } else {
            self.days_to_valid(w, k + 1)
        }
    }

    /// The occurrence from `s` on, moved by whole days to the first valid weekday.
    pub open spec fn next_range(self, s: int) -> Option<(int, int)> {
        match self.occurrence_from(s) {
            Some((a, b)) => {
                let k = self.days_to_valid(weekday_index(s), 0);
                Some((a + k * 86400, b + k * 86400))
            },
            None => None,
        }
    }

    /// A window over `start..end` on the given weekdays.
    pub fn new(range: (TimeOfDay, TimeOfDay), valid_weekdays: Vec<Weekday>) -> (r: TimeRange)
        requires
            range.0.wf(),
            range.1.wf(),
            valid_weekdays@.len() > 0,
        ensures
            r.wf(),
            r.start == range.0,
            r.end == range.1,
            forall|w: int|
                0 <= w < 7 ==> (#[trigger] r.valid_on(w) <==> exists|i: int|
                    0 <= i < valid_weekdays@.len() && valid_weekdays@[i].index() == w),
    {
        let mut days = [false;7];
        let mut i: usize = 0;
        while i < valid_weekdays.len()
            invariant
                i <= valid_weekdays@.len(),
                forall|w: int|
                    0 <= w < 7 ==> (#[trigger] days@[w] <==> exists|j: int|
                        0 <= j < i && valid_weekdays@[j].index() == w),
            decreases valid_weekdays@.len() - i,
        {
            let w = valid_weekdays[i].num_days_from_monday();
            days[w] = true;
            assert forall|v: int| 0 <= v < 7 implies (#[trigger] days@[v] <==> exists|j: int|
                0 <= j < i + 1 && valid_weekdays@[j].index() == v) by {
                if v == w {
                    assert(valid_weekdays@[i as int].index() == v);
                }
            }
            i += 1;
        }
        let r = TimeRange { start: range.0, end: range.1, valid_weekdays: days };
        assert(r.valid_on(valid_weekdays@[0].index()));
        r
    }

    /// Whether the window applies on weekday `w` at time of day `t`.
    pub fn applies_on(&self, w: usize, t: u32) -> (r: bool)
        requires
            w < 7,
        ensures
            r == (self.valid_on(w as int) && self.covers_time(t as int)),
    {
        self.valid_weekdays[w] && ((self.start.secs < self.end.secs && t >= self.start.secs && t
            < self.end.secs) || (self.start.secs > self.end.secs && (t >= self.start.secs || t
            < self.end.secs)))
    }

    /// Whether the window applies at `datetime`.
    pub fn contains(&self, datetime: DateTime) -> (r: bool)
        ensures
            r == self.applies_at(datetime.secs as int),
    {
        let w = datetime.weekday_index();
        if self.valid_weekdays[w] {
            let t = datetime.time().secs;
            if (self.start.secs < self.end.secs && t >= self.start.secs && t < self.end.secs) || (
            self.start.secs > self.end.secs && (t >= self.start.secs || t < self.end.secs)) {
                return true;
            }
        }
        false
    }

    /// The occurrence of the window that holds `datetime` by time of day, from
    /// `datetime` to its end (a wrapping one is cut at midnight), moved forward by
    /// whole days until it falls on a valid weekday; `None` where the time of day
    /// of `datetime` lies outside the window.
    pub fn get_next_range_start_at(&self, datetime: DateTime) -> (r: Option<(DateTime, DateTime)>)
        requires
            self.wf(),
            -MAX_INSTANT <= datetime.secs <= MAX_INSTANT,
        ensures
            span_of(r) == self.next_range(datetime.secs as int),
    {
        let ghost s0 = datetime.secs as int;
        proof {
            lemma_instant_parts(s0);
        }
        let t = datetime.time().secs;
        let midnight = datetime.secs - t as i64;
        let (a, b) = (self.start.secs, self.end.secs);
        let ans: Option<(i64, i64)> = if a < b {
            if t >= a && t < b {
                Some((datetime.secs, midnight + b as i64))
            } else {
                None
            }
        } else {
            if t < a && t > b {
                None
            } else if t >= a {
                Some((datetime.secs, midnight + SECS_PER_DAY))
            } else if t < b {
                Some((datetime.secs, midnight + b as i64))
            } else {
                None
            }
        };
        match ans {
            None => None,
            Some((s, e)) => {
                let ghost w0 = weekday_index(s0);
                proof {
                    self.lemma_days_to_valid_bound(w0);
                }
                let mut s = s;
                let mut e = e;
                let mut k: i64 = 0;
                while !self.valid_at(s)
                    invariant
                        0 <= k <= self.days_to_valid(w0, 0) < 7,
                        self.valid_on((w0 + self.days_to_valid(w0, 0)) % 7),
                        self.days_to_valid(w0, k as int) == self.days_to_valid(w0, 0),
                        self.occurrence_from(s0) == Some((s - k * 86400, e - k * 86400)),
                        0 <= w0 < 7,
                        w0 == weekday_index(s0),
                        s0 == datetime.secs,
                        -MAX_INSTANT <= s0 <= MAX_INSTANT,
                        s0 <= e - k * 86400 <= s0 + 86400,
                    decreases 7 - k,
                {
                    proof {
                        lemma_shift_days(s0, k as int);
                        assert(!self.valid_on((w0 + k) % 7));
                        assert(k < self.days_to_valid(w0, 0));
                        assert(self.days_to_valid(w0, k as int) == self.days_to_valid(w0, k + 1));
                    }
                    s = s + SECS_PER_DAY;
                    e = e + SECS_PER_DAY;
                    k = k + 1;
                }
                proof {
                    lemma_shift_days(s0, k as int);
                }
                Some((DateTime { secs: s }, DateTime { secs: e }))
            },
        }
    }

    /// Whether the window is valid on the weekday of instant `s`.
    fn valid_at(&self, s: i64) -> (r: bool)
        ensures
            r == self.valid_on(weekday_index(s as int)),
    {
        let d = DateTime { secs: s };
        self.valid_weekdays[d.weekday_index()]
    }

    /// Some weekday is valid, so the first valid one comes within a week.
    pub proof fn lemma_days_to_valid_bound(self, w: int)
        requires
            self.wf(),
            0 <= w < 7,
        ensures
            0 <= self.days_to_valid(w, 0) < 7,
            self.valid_on((w + self.days_to_valid(w, 0)) % 7),
    {
        let v = choose|v: int| 0 <= v < 7 && #[trigger] self.valid_weekdays@[v];
        let j = (v - w + 7) % 7;
        assert((w + j) % 7 == v);
        self.lemma_days_to_valid_below(w, 0, j);
    }

    proof fn lemma_days_to_valid_below(self, w: int, k: int, j: int)
        requires
            0 <= k <= j < 7,
            self.valid_on((w + j) % 7),
        ensures
            k <= self.days_to_valid(w, k) <= j,
            self.valid_on((w + self.days_to_valid(w, k)) % 7),
        decreases j - k,
    {
        if k < j && !self.valid_on((w + k) % 7) {
            self.lemma_days_to_valid_below(w, k + 1, j);
        }
    }
}

} // verus!
