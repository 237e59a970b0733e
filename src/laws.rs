//! What holds of every timeline, stated over the `step` model.
use crate::aggregate::boundary;
use crate::break_iter::{REST_DURATION, WORK_DURATION};
use crate::rate_timeline::{all_wf, applies_somewhere, covers_all, lemma_rate_next_bounds, rate_next};
use crate::time_range::TimeRange;
use crate::work_time::{
    initial_state, output, run, state_inv, step, valid_setup, RobotWorkTime, TimelineState,
};
use vstd::prelude::*;

verus! {

/// A step keeps the state's bounds and orderings.
pub proof fn lemma_step_inv(rs: Seq<TimeRange>, st: TimelineState)
    requires
        all_wf(rs),
        covers_all(rs),
        state_inv(st),
    ensures
        state_inv(step(rs, st)),
        step(rs, st).end == st.end,
        (st.finished ==> st.cur >= st.end) ==> (step(rs, st).finished ==> step(rs, st).cur
            >= step(rs, st).end),
        !st.finished && st.cur >= st.end ==> step(rs, st).finished,
{
    assert(applies_somewhere(rs, st.next_rate));
    lemma_rate_next_bounds(rs, st.next_rate);
}

/// Every state that a timeline reaches keeps the bounds and orderings, and is
/// finished only once its pending instant reached the end.
pub proof fn lemma_run_inv(rs: Seq<TimeRange>, start: int, end: int, n: nat)
    requires
        valid_setup(rs, start, end),
    ensures
        state_inv(run(rs, initial_state(rs, start, end), n)),
        run(rs, initial_state(rs, start, end), n).end == end,
        run(rs, initial_state(rs, start, end), n).finished ==> run(
            rs,
            initial_state(rs, start, end),
            n,
        ).cur >= end,
    decreases n,
{
    if n == 0 {
        assert(applies_somewhere(rs, start));
        lemma_rate_next_bounds(rs, start);
    } else {
        lemma_run_inv(rs, start, end, (n - 1) as nat);
        lemma_step_inv(rs, run(rs, initial_state(rs, start, end), (n - 1) as nat));
    }
}

/// The length of the interval that the step from `st` closes: from the instant
/// `st` hands out to the one handed out next.
pub open spec fn interval_len(rs: Seq<TimeRange>, st: TimelineState) -> int {
    if !st.finished && st.cur < st.end {
        boundary(step(rs, st)) - st.cur
    } else {
        0
    }
}

/// Total length of the intervals closed over the first `n` steps.
pub open spec fn elapsed(rs: Seq<TimeRange>, st: TimelineState, n: nat) -> int
    decreases n,
{
    if n == 0 {
        0
    } else {
        elapsed(rs, st, (n - 1) as nat) + interval_len(rs, run(rs, st, (n - 1) as nat))
    }
}

/// The intervals closed so far reach from the start to the instant handed out next.
proof fn lemma_elapsed_reaches(rs: Seq<TimeRange>, start: int, end: int, n: nat)
    requires
        valid_setup(rs, start, end),
        start <= end,
    ensures
        elapsed(rs, initial_state(rs, start, end), n) == boundary(
            run(rs, initial_state(rs, start, end), n),
        ) - start,
    decreases n,
{
    if n > 0 {
        let init = initial_state(rs, start, end);
        lemma_elapsed_reaches(rs, start, end, (n - 1) as nat);
        lemma_run_inv(rs, start, end, (n - 1) as nat);
        lemma_step_inv(rs, run(rs, init, (n - 1) as nat));
    }
}

/// Duration conservation: once a timeline from `start` to `end` has finished,
/// the intervals it handed out last `end - start` in all.
pub proof fn lemma_duration_conservation(rs: Seq<TimeRange>, start: int, end: int, n: nat)
    requires
        valid_setup(rs, start, end),
        start <= end,
        run(rs, initial_state(rs, start, end), n).finished,
    ensures
        elapsed(rs, initial_state(rs, start, end), n) == end - start,
{
    lemma_elapsed_reaches(rs, start, end, n);
    lemma_run_inv(rs, start, end, n);
}

/// The number of rest periods begun in the first `n` steps.
pub open spec fn rests_before(rs: Seq<TimeRange>, st: TimelineState, n: nat) -> nat
    decreases n,
{
    if n == 0 {
        0
    } else {
        let prev = run(rs, st, (n - 1) as nat);
        rests_before(rs, st, (n - 1) as nat) + if !prev.finished && prev.resting is Some {
            1nat
        } else {
            0nat
        }
    }
}

/// The rest cycle counts the rest periods begun so far.
proof fn lemma_cycle_count(rs: Seq<TimeRange>, start: int, end: int, n: nat)
    requires
        valid_setup(rs, start, end),
    ensures
        ({
            let st = run(rs, initial_state(rs, start, end), n);
            let c = rests_before(rs, initial_state(rs, start, end), n);
            !st.finished ==> (st.resting is None ==> st.cycle_start == start + (WORK_DURATION
                + REST_DURATION) * c) && (st.resting is Some ==> st.cycle_start == start + (
            WORK_DURATION + REST_DURATION) * (c + 1))
        }),
    decreases n,
{
    if n > 0 {
        let init = initial_state(rs, start, end);
        lemma_cycle_count(rs, start, end, (n - 1) as nat);
        lemma_run_inv(rs, start, end, (n - 1) as nat);
        let c = rests_before(rs, init, (n - 1) as nat);
        assert((WORK_DURATION + REST_DURATION) * (c + 1) == (WORK_DURATION + REST_DURATION) * c
            + WORK_DURATION + REST_DURATION) by (nonlinear_arith);
    }
}

/// Rest periodicity: the rest period that a timeline from `start` begins after
/// `k` earlier ones starts at `start + 8h + k * 9h`, whatever the rate windows.
/// Consecutive rest periods thus start nine hours apart.
pub proof fn lemma_rest_periodicity(rs: Seq<TimeRange>, start: int, end: int, n: nat)
    requires
        valid_setup(rs, start, end),
        !run(rs, initial_state(rs, start, end), n).finished,
        run(rs, initial_state(rs, start, end), n).resting is Some,
    ensures
        run(rs, initial_state(rs, start, end), n).cur == start + WORK_DURATION + (WORK_DURATION
            + REST_DURATION) * rests_before(rs, initial_state(rs, start, end), n),
{
    let c = rests_before(rs, initial_state(rs, start, end), n);
    lemma_cycle_count(rs, start, end, n);
    lemma_run_inv(rs, start, end, n);
    assert((WORK_DURATION + REST_DURATION) * (c + 1) == (WORK_DURATION + REST_DURATION) * c
        + WORK_DURATION + REST_DURATION) by (nonlinear_arith);
}

/// Precedence on coincidence: when the pending transition falls exactly where the
/// next rest period starts, the rest period is entered first, and the label it
/// will resume is the one in force before it.
pub proof fn lemma_rest_wins_tie(rs: Seq<TimeRange>, st: TimelineState)
    requires
        !st.finished,
        st.cur < st.end,
        st.resting is None,
        st.next_rate == st.cycle_start + WORK_DURATION,
    ensures
        step(rs, st).cur == st.next_rate,
        step(rs, st).label is None,
        step(rs, st).resting == Some((st.next_rate + REST_DURATION, st.label)),
        step(rs, st).next_rate == st.next_rate,
{
}

/// Precedence on coincidence: a transition that falls inside a rest period (up to
/// its end) is not handed out; the rest period ends at its own end, resuming the
/// window the transition leads into, and the track moves past the transition.
pub proof fn lemma_rest_absorbs_transition(rs: Seq<TimeRange>, st: TimelineState)
    requires
        !st.finished,
        st.cur < st.end,
        st.resting matches Some((rest_end, _)) && st.next_rate <= rest_end,
    ensures
        st.resting matches Some((rest_end, _)) && step(rs, st).cur == rest_end,
        step(rs, st).label == Some(st.next_window),
        step(rs, st).resting is None,
        step(rs, st).next_rate == rate_next(rs, st.next_rate),
{
}

/// No rest period that ends before the activity does absorbs a transition and
/// is then followed by another transition that also comes before its end. (The
/// rest period absorbs one transition only; a second one would be handed out
/// after the rest period's end, at an earlier instant.)
pub open spec fn absorbs_at_most_one(rs: Seq<TimeRange>, start: int, end: int) -> bool {
    forall|n: nat|
        #![trigger run(rs, initial_state(rs, start, end), n)]
        ({
            let st = run(rs, initial_state(rs, start, end), n);
            (!st.finished && st.cur < st.end && st.resting is Some && st.next_rate
                <= st.resting->Some_0.0 && st.resting->Some_0.0 < st.end) ==> rate_next(
                rs,
                st.next_rate,
            ) >= st.resting->Some_0.0
        })
}

/// A step from a state whose pending transition is not before its pending
/// instant never moves the handed-out instant back.
proof fn lemma_mono_step(rs: Seq<TimeRange>, st: TimelineState)
    requires
        all_wf(rs),
        covers_all(rs),
        state_inv(st),
        !st.finished && st.cur < st.end ==> st.cur <= st.next_rate,
    ensures
        boundary(st) <= boundary(step(rs, st)),
        ({
            let nx = step(rs, st);
            (!nx.finished && nx.cur < nx.end && (st.resting is None || st.next_rate
                > st.resting->Some_0.0 || rate_next(rs, st.next_rate) >= st.resting->Some_0.0))
                ==> nx.cur <= nx.next_rate
        }),
{
    assert(applies_somewhere(rs, st.next_rate));
    lemma_rate_next_bounds(rs, st.next_rate);
}

/// Where rest periods absorb at most one transition, every state reached keeps
/// its pending transition at or after its pending instant.
proof fn lemma_run_mono(rs: Seq<TimeRange>, start: int, end: int, n: nat)
    requires
        valid_setup(rs, start, end),
        absorbs_at_most_one(rs, start, end),
    ensures
        ({
            let st = run(rs, initial_state(rs, start, end), n);
            !st.finished && st.cur < st.end ==> st.cur <= st.next_rate
        }),
    decreases n,
{
    let init = initial_state(rs, start, end);
    if n == 0 {
        assert(applies_somewhere(rs, start));
        lemma_rate_next_bounds(rs, start);
    } else {
        let prev = run(rs, init, (n - 1) as nat);
        lemma_run_mono(rs, start, end, (n - 1) as nat);
        lemma_run_inv(rs, start, end, (n - 1) as nat);
        lemma_mono_step(rs, prev);
        assert(run(rs, init, n) == step(rs, prev));
    }
}

/// Where rest periods absorb at most one transition, the instants handed out
/// never decrease.
pub proof fn lemma_boundaries_ordered(rs: Seq<TimeRange>, start: int, end: int, i: nat, j: nat)
    requires
        valid_setup(rs, start, end),
        absorbs_at_most_one(rs, start, end),
        i <= j,
    ensures
        boundary(run(rs, initial_state(rs, start, end), i)) <= boundary(
            run(rs, initial_state(rs, start, end), j),
        ),
    decreases j,
{
    if i < j {
        let prev = run(rs, initial_state(rs, start, end), (j - 1) as nat);
        lemma_boundaries_ordered(rs, start, end, i, (j - 1) as nat);
        lemma_run_mono(rs, start, end, (j - 1) as nat);
        lemma_run_inv(rs, start, end, (j - 1) as nat);
        lemma_mono_step(rs, prev);
    }
}

/// Instant `t` falls in the interval that the `k`-th handed-out pair opens.
pub open spec fn in_interval(rs: Seq<TimeRange>, st: TimelineState, k: nat, t: int) -> bool {
    boundary(run(rs, st, k)) <= t < boundary(run(rs, st, k + 1))
}

proof fn lemma_interval_found(rs: Seq<TimeRange>, start: int, end: int, m: nat, n: nat, t: int) -> (k: nat)
    requires
        m < n,
        boundary(run(rs, initial_state(rs, start, end), m)) <= t,
        t < boundary(run(rs, initial_state(rs, start, end), n)),
    ensures
        m <= k < n,
        in_interval(rs, initial_state(rs, start, end), k, t),
    decreases n - m,
{
    if t < boundary(run(rs, initial_state(rs, start, end), m + 1)) {
        m
    } else {
        lemma_interval_found(rs, start, end, m + 1, n, t)
    }
}

/// Partition coverage: where rest periods absorb at most one transition, a
/// finished timeline from `start` to `end` puts every instant
/// of `[start, end)` in exactly one of the intervals it handed out, which carries
/// one label (a window, or rest).
pub proof fn lemma_partition_coverage(rs: Seq<TimeRange>, start: int, end: int, n: nat, t: int)
    requires
        valid_setup(rs, start, end),
        absorbs_at_most_one(rs, start, end),
        run(rs, initial_state(rs, start, end), n).finished,
        start <= t < end,
    ensures
        exists|k: nat| k < n && #[trigger] in_interval(rs, initial_state(rs, start, end), k, t),
        forall|k1: nat, k2: nat|
            #![trigger in_interval(rs, initial_state(rs, start, end), k1, t), in_interval(rs, initial_state(rs, start, end), k2, t)]
            k1 < n && k2 < n && in_interval(rs, initial_state(rs, start, end), k1, t)
                && in_interval(rs, initial_state(rs, start, end), k2, t) ==> k1 == k2,
{
    let init = initial_state(rs, start, end);
    lemma_run_inv(rs, start, end, n);
    assert(boundary(run(rs, init, 0)) == start);
    if n == 0 {
        assert(false);
    }
    let k = lemma_interval_found(rs, start, end, 0, n, t);
    assert(in_interval(rs, init, k, t));
    assert forall|k1: nat, k2: nat|
        k1 < n && k2 < n && #[trigger] in_interval(rs, init, k1, t) && #[trigger] in_interval(
            rs,
            init,
            k2,
            t,
        ) implies k1 == k2 by {
        if k1 < k2 {
            lemma_boundaries_ordered(rs, start, end, k1 + 1, k2);
        } else if k2 < k1 {
            lemma_boundaries_ordered(rs, start, end, k2 + 1, k1);
        }
    }
}

/// Idempotence: two timelines of the same activity hand out the same pairs, step
/// for step.
pub proof fn lemma_timeline_deterministic(a: RobotWorkTime, b: RobotWorkTime, n: nat)
    requires
        a.start == b.start,
        a.end == b.end,
        a.time_range@ == b.time_range@,
    ensures
        run(a.time_range@, a.initial(), n) == run(b.time_range@, b.initial(), n),
        output(run(a.time_range@, a.initial(), n)) == output(run(b.time_range@, b.initial(), n)),
{
}

} // verus!
