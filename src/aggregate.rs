//! Adding up how long each rate window applied during an activity, and what
//! that is owed at per-minute rates.
use crate::break_iter::REST_DURATION;
use crate::rate_timeline::{all_wf, applies_somewhere, covers_all, lemma_rate_next_bounds};
use crate::time_range::TimeRange;
use crate::work_time::{
    output, run, state_inv, step, RobotWorkTime, TimelineState, SPAN_BOUND,
};
use vstd::prelude::*;

verus! {

/// The instant a state hands out before it finishes: its pending instant, or
/// the end of the activity once that is passed.
pub open spec fn boundary(st: TimelineState) -> int {
    if st.cur >= st.end {
        st.end
    } else {
        st.cur
    }
}

/// Seconds credited to window `j` by the step from `st`: the interval that `st`
/// opens, if `st` is labelled with window `j`.
pub open spec fn credit(rs: Seq<TimeRange>, st: TimelineState, j: nat) -> int {
    if !st.finished && st.cur < st.end && (st.label matches Some(l) && l == j) {
        boundary(step(rs, st)) - st.cur
    } else {
        0
    }
}

/// Seconds credited to window `j` over the first `n` steps from `st`.
pub open spec fn window_total(rs: Seq<TimeRange>, st: TimelineState, n: nat, j: nat) -> int
    decreases n,
{
    if n == 0 {
        0
    } else {
        window_total(rs, st, (n - 1) as nat, j) + credit(rs, run(rs, st, (n - 1) as nat), j)
    }
}

/// A number of steps after which the timeline has finished, where there is one.
pub open spec fn finished_within(rs: Seq<TimeRange>, st: TimelineState) -> nat {
    choose|n: nat| #[trigger] run(rs, st, n).finished
}

/// Seconds credited to each window over the whole timeline from `st`.
pub open spec fn activity_totals(rs: Seq<TimeRange>, st: TimelineState) -> Seq<int> {
    Seq::new(rs.len(), |j: int| window_total(rs, st, finished_within(rs, st), j as nat))
}

/// A finished timeline stays as it is.
pub proof fn lemma_finished_stays(rs: Seq<TimeRange>, st: TimelineState, n: nat, m: nat)
    requires
        run(rs, st, n).finished,
        n <= m,
    ensures
        run(rs, st, m) == run(rs, st, n),
    decreases m,
{
    if m > n {
        lemma_finished_stays(rs, st, n, (m - 1) as nat);
    }
}

/// Once the timeline has finished, no window is credited any more.
pub proof fn lemma_totals_settle(rs: Seq<TimeRange>, st: TimelineState, n: nat, m: nat, j: nat)
    requires
        run(rs, st, n).finished,
        n <= m,
    ensures
        window_total(rs, st, m, j) == window_total(rs, st, n, j),
    decreases m,
{
    if m > n {
        lemma_totals_settle(rs, st, n, (m - 1) as nat, j);
        lemma_finished_stays(rs, st, n, (m - 1) as nat);
    }
}

/// Any two step counts after which the timeline has finished give the same totals.
pub proof fn lemma_totals_agree(rs: Seq<TimeRange>, st: TimelineState, n: nat, m: nat, j: nat)
    requires
        run(rs, st, n).finished,
        run(rs, st, m).finished,
    ensures
        window_total(rs, st, m, j) == window_total(rs, st, n, j),
{
    if n <= m {
        lemma_totals_settle(rs, st, n, m, j);
    } else {
        lemma_totals_settle(rs, st, m, n, j);
    }
}

/// The amount owed for the first `n` windows: whole minutes times rate.
pub open spec fn owed_upto(d: Seq<int>, rates: Seq<u64>, n: int) -> int
    decreases n,
{
    if n <= 0 {
        0
    } else {
        owed_upto(d, rates, n - 1) + (d[n - 1] / 60) * rates[n - 1]
    }
}

/// The amount owed for durations `d` (seconds) at per-minute `rates`; `None`
/// where a duration is negative or the amount exceeds 64 bits.
pub open spec fn owed_total(d: Seq<int>, rates: Seq<u64>) -> Option<u64> {
    if (forall|j: int| 0 <= j < d.len() ==> d[j] >= 0) && owed_upto(d, rates, d.len() as int)
        <= u64::MAX {
        Some(owed_upto(d, rates, d.len() as int) as u64)
    } else {
        None
    }
}

/// With no negative duration, the amount only grows with more windows.
proof fn lemma_owed_grows(d: Seq<int>, rates: Seq<u64>, i: int, n: int)
    requires
        0 <= i <= n <= d.len(),
        rates.len() == d.len(),
        forall|j: int| 0 <= j < d.len() ==> d[j] >= 0,
    ensures
        owed_upto(d, rates, i) <= owed_upto(d, rates, n),
    decreases n - i,
{
    if i < n {
        lemma_owed_grows(d, rates, i, n - 1);
        assert((d[n - 1] / 60) * rates[n - 1] >= 0) by (nonlinear_arith)
            requires
                d[n - 1] >= 0,
                rates[n - 1] >= 0,
        ;
    }
}

/// The amount owed for `durations` (seconds per window) at per-minute `rates`:
/// the whole minutes of each window times its rate, summed.
pub fn owed_amount(durations: &Vec<i128>, rates: &Vec<u64>) -> (r: Option<u64>)
    requires
        durations@.len() == rates@.len(),
    ensures
        r == owed_total(durations@.map_values(|x: i128| x as int), rates@),
{
    let ghost d = durations@.map_values(|x: i128| x as int);
    let n = durations.len();
    let mut i: usize = 0;
    while i < n
        invariant
            n == durations@.len() == rates@.len() == d.len(),
            i <= n,
            d == durations@.map_values(|x: i128| x as int),
            forall|j: int| 0 <= j < i ==> d[j] >= 0,
        decreases n - i,
    {
        if durations[i] < 0 {
            assert(d[i as int] < 0);
            return None;
        }
        i += 1;
    }
    let mut total: u64 = 0;
    let mut i: usize = 0;
    while i < n
        invariant
            n == durations@.len() == rates@.len() == d.len(),
            i <= n,
            d == durations@.map_values(|x: i128| x as int),
            forall|j: int| 0 <= j < d.len() ==> d[j] >= 0,
            total == owed_upto(d, rates@, i as int),
        decreases n - i,
    {
        proof {
            lemma_owed_grows(d, rates@, i + 1, n as int);
        }
        let minutes = durations[i] / 60;
        let rate = rates[i];
        assert(d[i as int] == durations@[i as int]);
        assert(minutes == d[i as int] / 60);
        assert(owed_upto(d, rates@, i + 1) == owed_upto(d, rates@, i as int) + minutes * rate);
        if rate == 0 {
            assert(minutes * rate == 0) by (nonlinear_arith)
                requires
                    rate == 0,
            ;
        } else {
            if minutes > u64::MAX as i128 {
                assert(minutes * rate >= minutes) by (nonlinear_arith)
                    requires
                        minutes >= 0,
                        rate >= 1,
                ;
                return None;
            }
            match (minutes as u64).checked_mul(rate) {
                Some(term) => match total.checked_add(term) {
                    Some(t) => {
                        total = t;
                    },
                    None => {
                        return None;
                    },
                },
                None => {
                    return None;
                },
            }
        }
        i += 1;
    }
    Some(total)
}

/// A bound on the steps left before the timeline finishes.
pub open spec fn steps_bound(st: TimelineState) -> int {
    if st.finished {
        0
    } else if st.cur >= st.end {
        1
    } else {
        2 + 2 * ((st.end + 2 * 86400 - st.next_rate) + (st.end + 2 * 86400 - st.cycle_start)) + (
        if st.resting is Some {
            1int
        } else {
            0int
        })
    }
}

/// Each step that does not finish the timeline lowers the bound on the steps
/// left, and the interval it closes lasts under a day.
pub proof fn lemma_step_progress(rs: Seq<TimeRange>, st: TimelineState)
    requires
        all_wf(rs),
        covers_all(rs),
        state_inv(st),
        !st.finished,
    ensures
        0 <= steps_bound(step(rs, st)) < steps_bound(st),
        steps_bound(st) <= 2 + 8 * SPAN_BOUND + 16 * 86400,
        st.cur < st.end ==> st.cur - REST_DURATION < boundary(step(rs, st)) <= st.cur + 86400,
        output(st) is Some,
{
    assert(applies_somewhere(rs, st.next_rate));
    lemma_rate_next_bounds(rs, st.next_rate);
}

impl RobotWorkTime {
    /// Seconds of the activity during which each window applied, by position;
    /// rest periods count for none.
    pub fn window_durations(self) -> (r: Vec<i128>)
        requires
            self.wf(),
        ensures
            r@.len() == self.time_range@.len(),
            forall|j: int|
                0 <= j < r@.len() ==> r@[j] == activity_totals(self.time_range@, self.initial())[j],
    {
        let ghost rs = self.time_range@;
        let ghost init = self.initial();
        let n = self.time_range.len();
        let mut totals: Vec<i128> = Vec::new();
        let mut i: usize = 0;
        while i < n
            invariant
                i <= n,
                totals@.len() == i,
                forall|j: int| 0 <= j < i ==> totals@[j] == 0,
            decreases n - i,
        {
            totals.push(0);
            i += 1;
        }
        let mut it = self.into_iter();
        let ghost mut k: nat = 0;
        proof {
            lemma_step_progress(rs, init);
        }
        loop
            invariant
                it.wf(),
                it.windows() == rs,
                all_wf(rs),
                covers_all(rs),
                it.state() == run(rs, init, k),
                totals@.len() == rs.len(),
                forall|j: int|
                    0 <= j < totals@.len() ==> totals@[j] == window_total(rs, init, k, j as nat),
                forall|j: int|
                    0 <= j < totals@.len() ==> -(k * 86400) <= #[trigger] totals@[j] <= k * 86400,
                k + steps_bound(it.state()) <= steps_bound(init),
                steps_bound(init) <= 2 + 8 * SPAN_BOUND + 16 * 86400,
            ensures
                it.state() == run(rs, init, k),
                it.state().finished,
                forall|j: int|
                    0 <= j < totals@.len() ==> totals@[j] == window_total(rs, init, k, j as nat),
                totals@.len() == rs.len(),
            decreases steps_bound(it.state()),
        {
            let (c, lab) = it.cur;
            let ghost before = it.state();
            proof {
                if !before.finished {
                    lemma_step_progress(rs, before);
                }
            }
            match it.next() {
                None => {
                    break ;
                },
                Some(_) => {
                    let ghost old_totals = totals@;
                    if c.secs < it.end.secs {
                        match lab {
                            Some(j) => {
                                let b = if it.cur.0.secs >= it.end.secs {
                                    it.end.secs
                                } else {
                                    it.cur.0.secs
                                };
                                proof {
                                    assert((k + 1) * 86400 <= 20_000_000_000_000_000_000 * 86400)
                                        by (nonlinear_arith)
                                        requires
                                            k + 1 <= 20_000_000_000_000_000_000,
                                    ;
                                }
                                totals.set(j, totals[j] + (b - c.secs) as i128);
                            },
                            None => {},
                        }
                    }
                    proof {
                        assert forall|j: int| 0 <= j < totals@.len() implies totals@[j]
                            == window_total(rs, init, (k + 1) as nat, j as nat) by {
                            assert(run(rs, init, k) == before);
                            assert(window_total(rs, init, (k + 1) as nat, j as nat) == window_total(
                                rs,
                                init,
                                k,
                                j as nat,
                            ) + credit(rs, before, j as nat));
                            if c.secs < it.end.secs && (lab matches Some(l) && l == j) {
                                assert(credit(rs, before, j as nat) == boundary(it.state()) - c.secs);
                                assert(totals@[j] == old_totals[j] + boundary(it.state()) - c.secs);
                            } else {
                                assert(credit(rs, before, j as nat) == 0);
                                assert(totals@[j] == old_totals[j]);
                            }
                        }
                        k = k + 1;
                    }
                },
            }
        }
        proof {
            let n0 = finished_within(rs, init);
            assert(run(rs, init, k).finished);
            assert forall|j: int| 0 <= j < totals@.len() implies totals@[j] == activity_totals(
                rs,
                init,
            )[j] by {
                lemma_totals_agree(rs, init, n0, k, j as nat);
            }
        }
        totals
    }
}

} // verus!
