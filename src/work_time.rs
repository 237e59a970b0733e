//! The activity timeline: rate-window transitions merged with the rest cycle,
//! cut to the activity's span.
use crate::break_iter::{BreakIterator, REST_DURATION, WORK_DURATION};
use crate::calendar::DateTime;
use crate::rate_timeline::{
    all_wf, applies_somewhere, covers_all, lemma_last_applying, lemma_rate_next_bounds, rate_next,
    window_at, TimeRangesIterator,
};
use crate::time_range::TimeRange;
use vstd::prelude::*;

verus! {

/// Largest magnitude of an activity's start or end, in seconds.
pub const SPAN_BOUND: i64 = 1_000_000_000_000_000_000;

/// The state of the timeline, over mathematical integers.
pub struct TimelineState {
    /// The instant to hand out next, with its label (`None`: resting).
    pub cur: int,
    pub label: Option<usize>,
    /// End of the activity.
    pub end: int,
    /// The pending rate-window transition, with the window it leads into.
    pub next_rate: int,
    pub next_window: usize,
    /// Start of the current work/rest cycle.
    pub cycle_start: int,
    /// While resting: when the rest ends, and the label it would resume.
    pub resting: Option<(int, Option<usize>)>,
    pub finished: bool,
}

/// What the timeline hands out from state `st`: its pending instant and label,
/// the end of the activity once that is reached, nothing once finished.
pub open spec fn output(st: TimelineState) -> Option<(int, Option<usize>)> {
    if st.finished {
        None
    } else if st.cur >= st.end {
        Some((st.end, None))
    } else {
        Some((st.cur, st.label))
    }
}

/// The state after the pending transition `st.next_rate` is consumed.
pub open spec fn after_transition(
    rs: Seq<TimeRange>,
    st: TimelineState,
    cur: int,
    label: Option<usize>,
) -> TimelineState {
    let t = rate_next(rs, st.next_rate);
    TimelineState {
        cur,
        label,
        end: st.end,
        next_rate: t,
        next_window: window_at(rs, t) as usize,
        cycle_start: st.cycle_start,
        resting: None,
        finished: false,
    }
}

/// One step of the timeline over the windows `rs`.
///
/// The end of the activity takes precedence over everything. A rest period that
/// ends absorbs the pending transition if it comes no later than its end.
/// Otherwise the earlier of the pending transition and the next rest period comes
/// next, the rest period on a tie.
pub open spec fn step(rs: Seq<TimeRange>, st: TimelineState) -> TimelineState {
    if st.finished {
        st
    } else if st.cur >= st.end {
        TimelineState { finished: true, ..st }
    } else {
        match st.resting {
            Some((rest_end, status)) => if st.next_rate <= rest_end {
                after_transition(rs, st, rest_end, Some(st.next_window))
            } else {
                TimelineState { cur: rest_end, label: status, resting: None, ..st }
            },
            None => {
                let rest_start = st.cycle_start + WORK_DURATION;
                if st.next_rate < rest_start {
                    after_transition(rs, st, st.next_rate, Some(st.next_window))
                } else {
                    let rest_end = rest_start + REST_DURATION;
                    TimelineState {
                        cur: rest_start,
                        label: None,
                        cycle_start: rest_end,
                        resting: Some((rest_end, st.label)),
                        ..st
                    }
                }
            },
        }
    }
}

/// The state after `n` steps.
pub open spec fn run(rs: Seq<TimeRange>, st: TimelineState, n: nat) -> TimelineState
    decreases n,
{
    if n == 0 {
        st
    } else {
        step(rs, run(rs, st, (n - 1) as nat))
    }
}

/// The state of a fresh timeline from `start` to `end` over the windows `rs`.
pub open spec fn initial_state(rs: Seq<TimeRange>, start: int, end: int) -> TimelineState {
    let t = rate_next(rs, start);
    TimelineState {
        cur: start,
        label: Some(window_at(rs, start) as usize),
        end,
        next_rate: t,
        next_window: window_at(rs, t) as usize,
        cycle_start: start,
        resting: None,
        finished: false,
    }
}

/// The bounds and orderings that every reachable state keeps.
pub open spec fn state_inv(st: TimelineState) -> bool {
    &&& -SPAN_BOUND <= st.end <= SPAN_BOUND
    &&& !st.finished ==> {
        &&& -SPAN_BOUND - REST_DURATION <= st.cur <= SPAN_BOUND + 86400
        &&& -SPAN_BOUND <= st.cycle_start
        &&& st.cur - REST_DURATION < st.next_rate <= st.cur + 86400
        &&& st.resting is None ==> st.cycle_start - REST_DURATION < st.cur < st.cycle_start
            + WORK_DURATION && st.cycle_start - REST_DURATION < st.next_rate
        &&& st.resting matches Some((rest_end, _)) ==> rest_end == st.cycle_start && st.cur
            + REST_DURATION == rest_end && st.cur <= st.next_rate
    }
}

/// Every label in the state names one of `n` windows.
pub open spec fn labels_within(st: TimelineState, n: nat) -> bool {
    &&& (st.label matches Some(j) ==> j < n)
    &&& st.next_window < n
    &&& (st.resting matches Some((_, l)) ==> (l matches Some(j) ==> j < n))
}

/// What a caller's window list and span must satisfy.
pub open spec fn valid_setup(rs: Seq<TimeRange>, start: int, end: int) -> bool {
    &&& all_wf(rs)
    &&& covers_all(rs)
    &&& -SPAN_BOUND <= start <= SPAN_BOUND
    &&& -SPAN_BOUND <= end <= SPAN_BOUND
}

/// An activity: its span and the rate windows that apply during it.
#[derive(Clone, Debug, PartialEq, Eq)]
pub struct RobotWorkTime {
    pub start: DateTime,
    pub end: DateTime,
    pub time_range: Vec<TimeRange>,
}

impl RobotWorkTime {
    pub open spec fn wf(self) -> bool {
        valid_setup(self.time_range@, self.start.secs as int, self.end.secs as int)
    }

    pub open spec fn initial(self) -> TimelineState {
        initial_state(self.time_range@, self.start.secs as int, self.end.secs as int)
    }

    pub fn new(start: DateTime, end: DateTime, time_range: Vec<TimeRange>) -> (r: RobotWorkTime)
        ensures
            r.start == start,
            r.end == end,
            r.time_range@ == time_range@,
    {
        RobotWorkTime { start, end, time_range }
    }

    /// The timeline of the activity, from its start.
    pub fn into_iter(self) -> (r: RobotWorkTimeIterator)
        requires
            self.wf(),
        ensures
            r.wf(),
            r.windows() == self.time_range@,
            r.state() == self.initial(),
    {
        let ghost rs = self.time_range@;
        let ghost s = self.start.secs as int;
        let RobotWorkTime { time_range, start, end } = self;
        proof {
            assert(applies_somewhere(rs, s));
            lemma_rate_next_bounds(rs, s);
            lemma_last_applying(rs, s);
        }
        let mut time_ranges_iter = TimeRangesIterator::new(start, time_range).unwrap();
        let cur = time_ranges_iter.next().unwrap();
        let break_iter = BreakIterator::new(start, WORK_DURATION, REST_DURATION);
        RobotWorkTimeIterator {
            cur: (cur.0, Some(cur.1)),
            end,
            time_ranges_iter,
            break_iter,
            breaking: None,
            is_finish: false,
        }
    }
}

/// The activity timeline: hands out `(instant, label)` pairs, each opening an
/// interval that lasts until the next instant. The label is the window's
/// position, or `None` for a rest period and for the final pair at the end.
#[derive(Debug, PartialEq, Eq)]
pub struct RobotWorkTimeIterator {
    pub cur: (DateTime, Option<usize>),
    pub end: DateTime,
    pub time_ranges_iter: TimeRangesIterator,
    pub break_iter: BreakIterator,
    pub breaking: Option<(DateTime, Option<usize>)>,
    pub is_finish: bool,
}

/// A handed-out pair over mathematical integers.
pub open spec fn pair_of(r: Option<(DateTime, Option<usize>)>) -> Option<(int, Option<usize>)> {
    match r {
        Some((t, l)) => Some((t.secs as int, l)),
        None => None,
    }
}

impl RobotWorkTimeIterator {
    pub open spec fn windows(self) -> Seq<TimeRange> {
        self.time_ranges_iter.time_ranges@
    }

    pub open spec fn state(self) -> TimelineState {
        TimelineState {
            cur: self.cur.0.secs as int,
            label: self.cur.1,
            end: self.end.secs as int,
            next_rate: self.time_ranges_iter.cur.0.secs as int,
            next_window: self.time_ranges_iter.cur.1,
            cycle_start: self.break_iter.start.secs as int,
            resting: pair_of(self.breaking),
            finished: self.is_finish,
        }
    }

    pub open spec fn wf(self) -> bool {
        &&& self.time_ranges_iter.wf()
        &&& self.break_iter.wf()
        &&& self.break_iter.work_duration == WORK_DURATION
        &&& self.break_iter.rest_duration == REST_DURATION
        &&& state_inv(self.state())
        &&& labels_within(self.state(), self.windows().len())
    }

    /// Hands out the pending pair and moves on, as `step` says.
    pub fn next(&mut self) -> (r: Option<(DateTime, Option<usize>)>)
        requires
            old(self).wf(),
        ensures
            final(self).wf(),
            final(self).windows() == old(self).windows(),
            final(self).state() == step(old(self).windows(), old(self).state()),
            pair_of(r) == output(old(self).state()),
    {
        let ret = self.cur;
        if self.is_finish {
            return None;
        }
        if ret.0.secs >= self.end.secs {
            self.is_finish = true;
            return Some((self.end, None));
        }
        match self.breaking {
            Some((break_end, end_status)) => {
                self.breaking = None;
                let (next_time_seg, next_status) = self.time_ranges_iter.peek();
                let mut end_status = end_status;
                if next_time_seg.secs <= break_end.secs {
                    end_status = Some(next_status);
                    self.time_ranges_iter.next();
                }
                self.cur = (break_end, end_status);
                return Some(ret);
            },
            None => {},
        }
        let (next_time_seg, next_status) = self.time_ranges_iter.peek();
        let (break_begin, break_end) = self.break_iter.peek();
        if next_time_seg.secs < break_begin.secs {
            self.cur = (next_time_seg, Some(next_status));
            self.time_ranges_iter.next();
        } else {
            self.cur = (break_begin, None);
            self.breaking = Some((break_end, ret.1));
            self.break_iter.next();
        }
        Some(ret)
    }
}

} // verus!
