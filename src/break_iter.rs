//! The work/rest cycle: an unbounded sequence of rest periods.
use crate::calendar::{DateTime, MAX_INSTANT};
use vstd::prelude::*;

verus! {

/// Length of a work stretch: eight hours.
pub const WORK_DURATION: i64 = 28800;

/// Length of a rest period: one hour.
pub const REST_DURATION: i64 = 3600;

/// Produces the rest periods of a cycle: after each work stretch from `start`
/// comes a rest period, and the next cycle starts when it ends.
#[derive(Clone, Copy, Debug, PartialEq, Eq)]
pub struct BreakIterator {
    /// Start of the next cycle.
    pub start: DateTime,
    /// Seconds of work before each rest period.
    pub work_duration: i64,
    /// Seconds of each rest period.
    pub rest_duration: i64,
}

impl BreakIterator {
    pub open spec fn wf(self) -> bool {
        &&& -MAX_INSTANT <= self.start.secs <= MAX_INSTANT
        &&& 0 <= self.work_duration
        &&& 0 <= self.rest_duration
        &&& self.work_duration + self.rest_duration <= MAX_INSTANT
    }

    /// The next rest period, as the instants it starts and ends.
    pub open spec fn next_rest(self) -> (int, int) {
        let work_end = self.start.secs + self.work_duration;
        (work_end, work_end + self.rest_duration)
    }

    /// The cycle of `work_duration` then `rest_duration` seconds from `start`.
    pub fn new(start: DateTime, work_duration: i64, rest_duration: i64) -> (r: BreakIterator)
        ensures
            r.start == start,
            r.work_duration == work_duration,
            r.rest_duration == rest_duration,
    {
        BreakIterator { start, work_duration, rest_duration }
    }

    /// The next rest period, without consuming it.
    pub fn peek(&self) -> (r: (DateTime, DateTime))
        requires
            self.wf(),
        ensures
            (r.0.secs as int, r.1.secs as int) == self.next_rest(),
    {
        let work_end = self.start.secs + self.work_duration;
        (DateTime { secs: work_end }, DateTime { secs: work_end + self.rest_duration })
    }

    /// Hands out the next rest period; the following cycle starts at its end.
    pub fn next(&mut self) -> (r: Option<(DateTime, DateTime)>)
        requires
            old(self).wf(),
        ensures
            r matches Some(p) && (p.0.secs as int, p.1.secs as int) == old(self).next_rest(),
            final(self).start.secs == old(self).next_rest().1,
            final(self).work_duration == old(self).work_duration,
            final(self).rest_duration == old(self).rest_duration,
    {
        let r = self.peek();
        self.start = r.1;
        Some(r)
    }
}

} // verus!
