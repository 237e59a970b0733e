//! The track of which rate window applies: an unbounded sequence of transitions.
use crate::calendar::{
    day_number, lemma_instant_parts, lemma_shift_days, time_of_day, weekday_index, DateTime,
    MAX_INSTANT,
};
use crate::time_range::TimeRange;
use vstd::prelude::*;

verus! {

/// Every window is well formed.
pub open spec fn all_wf(rs: Seq<TimeRange>) -> bool {
    forall|i: int| 0 <= i < rs.len() ==> #[trigger] rs[i].wf()
}

/// Some window applies at instant `s`.
pub open spec fn applies_somewhere(rs: Seq<TimeRange>, s: int) -> bool {
    exists|i: int| 0 <= i < rs.len() && #[trigger] rs[i].applies_at(s)
}

/// The windows leave no instant uncovered.
pub open spec fn covers_all(rs: Seq<TimeRange>) -> bool {
    forall|s: int| #[trigger] applies_somewhere(rs, s)
}

/// Some window applies on weekday `w` at time of day `t`.
pub open spec fn covers_slot(rs: Seq<TimeRange>, w: int, t: int) -> bool {
    exists|i: int| 0 <= i < rs.len() && #[trigger] rs[i].valid_on(w) && rs[i].covers_time(t)
}

/// Whether some window applies on weekday `w` at time of day `t`.
fn slot_covered(rs: &Vec<TimeRange>, w: usize, t: u32) -> (r: bool)
    requires
        w < 7,
    ensures
        r == covers_slot(rs@, w as int, t as int),
{
    let mut i: usize = 0;
    while i < rs.len()
        invariant
            i <= rs@.len(),
            w < 7,
            forall|j: int| 0 <= j < i ==> !(#[trigger] rs@[j].valid_on(w as int) && rs@[j].covers_time(t as int)),
        decreases rs@.len() - i,
    {
        if rs[i].applies_on(w, t) {
            return true;
        }
        i += 1;
    }
    false
}

/// Whether the windows leave no instant of the week uncovered: every weekday
/// and every second of the day has a window that applies.
pub fn covers_week(rs: &Vec<TimeRange>) -> (r: bool)
    ensures
        r == covers_all(rs@),
{
    let mut w: usize = 0;
    while w < 7
        invariant
            w <= 7,
            forall|v: int, t: int| 0 <= v < w && 0 <= t < 86400 ==> #[trigger] covers_slot(rs@, v, t),
        decreases 7 - w,
    {
        let mut t: u32 = 0;
        while t < 86400
            invariant
                w < 7,
                t <= 86400,
                forall|v: int, u: int| 0 <= v < w && 0 <= u < 86400 ==> #[trigger] covers_slot(rs@, v, u),
                forall|u: int| 0 <= u < t ==> #[trigger] covers_slot(rs@, w as int, u),
            decreases 86400 - t,
        {
            if !slot_covered(rs, w, t) {
                proof {
                    let s = (w + 1) * 86400 + t;
                    lemma_slot_instant(w as int, t as int);
                    if applies_somewhere(rs@, s) {
                        let i = choose|i: int| 0 <= i < rs@.len() && #[trigger] rs@[i].applies_at(s);
                        assert(rs@[i].valid_on(w as int) && rs@[i].covers_time(t as int));
                    }
                    assert(!applies_somewhere(rs@, s));
                }
                return false;
            }
            t += 1;
        }
        w += 1;
    }
    proof {
        assert forall|s: int| #[trigger] applies_somewhere(rs@, s) by {
            lemma_instant_parts(s);
            assert(covers_slot(rs@, weekday_index(s), time_of_day(s)));
            let i = choose|i: int| 0 <= i < rs@.len() && #[trigger] rs@[i].valid_on(weekday_index(s)) && rs@[i].covers_time(time_of_day(s));
            assert(rs@[i].applies_at(s));
        }
    }
    true
}

/// The instant at time of day `t` on day `w + 1` falls on weekday `w`.
proof fn lemma_slot_instant(w: int, t: int)
    requires
        0 <= w < 7,
        0 <= t < 86400,
    ensures
        weekday_index((w + 1) * 86400 + t) == w,
        time_of_day((w + 1) * 86400 + t) == t,
{
    lemma_shift_days(t, w + 1);
    lemma_instant_parts(t);
    assert(day_number(t) == 0);
    assert(time_of_day(t) == t) by {
        vstd::arithmetic::div_mod::lemma_small_mod(t as nat, 86400);
    }
    assert(weekday_index(t) == 6) by {
        vstd::arithmetic::div_mod::lemma_small_mod(6, 7);
    }
    assert((6 + (w + 1)) % 7 == w);
}

/// The last window (by position) that applies at instant `s`.
pub open spec fn last_applying(rs: Seq<TimeRange>, s: int) -> Option<int>
    decreases rs.len(),
{
    if rs.len() == 0 {
        None
    } else if rs.last().applies_at(s) {
        Some(rs.len() - 1)
    } else {
        last_applying(rs.drop_last(), s)
    }
}

/// The earliest end among the windows' next occurrences from instant `s`.
pub open spec fn earliest_end(rs: Seq<TimeRange>, s: int) -> Option<int>
    decreases rs.len(),
{
    if rs.len() == 0 {
        None
    } else {
        let rest = earliest_end(rs.drop_last(), s);
        match rs.last().next_range(s) {
            None => rest,
            Some((_, e)) => match rest {
                None => Some(e),
                Some(m) => Some(if e < m { e } else { m }),
            },
        }
    }
}

/// The instant of the first window transition after `s`.
pub open spec fn rate_next(rs: Seq<TimeRange>, s: int) -> int {
    match earliest_end(rs, s) {
        Some(e) => e,
        None => s,
    }
}

/// The window that applies at `s`, by position (the last one, should several).
pub open spec fn window_at(rs: Seq<TimeRange>, s: int) -> int {
    match last_applying(rs, s) {
        Some(i) => i,
        None => 0,
    }
}

/// The window found by `last_applying` applies; it finds none only where no
/// window applies.
pub proof fn lemma_last_applying(rs: Seq<TimeRange>, s: int)
    ensures
        last_applying(rs, s) matches Some(i) ==> 0 <= i < rs.len() && rs[i].applies_at(s),
        last_applying(rs, s) is None <==> !applies_somewhere(rs, s),
    decreases rs.len(),
{
    if rs.len() > 0 {
        lemma_last_applying(rs.drop_last(), s);
        if !rs.last().applies_at(s) && applies_somewhere(rs, s) {
            let i = choose|i: int| 0 <= i < rs.len() && #[trigger] rs[i].applies_at(s);
            assert(rs.drop_last()[i].applies_at(s));
        }
        if applies_somewhere(rs.drop_last(), s) {
            let i = choose|i: int| 0 <= i < rs.len() - 1 && #[trigger] rs.drop_last()[i].applies_at(s);
            assert(rs[i].applies_at(s));
        }
    }
}

/// An occurrence from `s` ends after `s`; one of a window that applies at `s`
/// starts at `s` and ends within a day.
pub proof fn lemma_next_range_after(r: TimeRange, s: int)
    requires
        r.wf(),
    ensures
        r.next_range(s) matches Some((a, e)) ==> s <= a && s < e,
        r.applies_at(s) ==> (r.next_range(s) matches Some((a, e)) && a == s && e <= s + 86400),
        r.applies_at(s) ==> r.days_to_valid(crate::calendar::weekday_index(s), 0) == 0,
{
    lemma_instant_parts(s);
    let w = crate::calendar::weekday_index(s);
    r.lemma_days_to_valid_bound(w);
    assert((w + 0) % 7 == w);
}

/// Under full cover, the next transition comes after `s` and within a day.
pub proof fn lemma_rate_next_bounds(rs: Seq<TimeRange>, s: int)
    requires
        all_wf(rs),
        applies_somewhere(rs, s),
    ensures
        earliest_end(rs, s) is Some,
        s < rate_next(rs, s) <= s + 86400,
{
    lemma_earliest_end(rs, s);
    let i = choose|i: int| 0 <= i < rs.len() && #[trigger] rs[i].applies_at(s);
    lemma_next_range_after(rs[i], s);
}

/// What `earliest_end` finds: an end that no occurrence undercuts, after `s`.
pub proof fn lemma_earliest_end(rs: Seq<TimeRange>, s: int)
    requires
        all_wf(rs),
    ensures
        forall|i: int|
            0 <= i < rs.len() && #[trigger] rs[i].next_range(s) is Some ==> (earliest_end(rs, s)
                matches Some(m) && m <= rs[i].next_range(s)->Some_0.1),
        earliest_end(rs, s) matches Some(m) ==> s < m,
    decreases rs.len(),
{
    if rs.len() > 0 {
        let init = rs.drop_last();
        assert(all_wf(init)) by {
            assert forall|i: int| 0 <= i < init.len() implies #[trigger] init[i].wf() by {
                assert(init[i] == rs[i]);
            }
        }
        lemma_earliest_end(init, s);
        lemma_next_range_after(rs.last(), s);
        assert forall|i: int|
            0 <= i < rs.len() && #[trigger] rs[i].next_range(s) is Some implies (earliest_end(
            rs,
            s,
        ) matches Some(m) && m <= rs[i].next_range(s)->Some_0.1) by {
            if i < rs.len() - 1 {
                assert(init[i] == rs[i]);
            }
        }
    }
}

/// Produces the instants at which the applicable window changes, each with the
/// window (by position) that applies from there on.
#[derive(Debug, PartialEq, Eq)]
pub struct TimeRangesIterator {
    /// The transition to hand out next, with the window it leads into.
    pub cur: (DateTime, usize),
    pub time_ranges: Vec<TimeRange>,
}

impl TimeRangesIterator {
    /// The windows cover every instant, and the pending transition is where the
    /// window it names applies.
    pub open spec fn wf(self) -> bool {
        &&& all_wf(self.time_ranges@)
        &&& covers_all(self.time_ranges@)
        &&& -MAX_INSTANT <= self.cur.0.secs <= MAX_INSTANT
        &&& self.cur.1 == window_at(self.time_ranges@, self.cur.0.secs as int)
        &&& self.cur.1 < self.time_ranges@.len()
    }

    /// The track from `start`; `None` where no window applies at `start`.
    pub fn new(start: DateTime, time_ranges: Vec<TimeRange>) -> (r: Option<TimeRangesIterator>)
        ensures
            r is None <==> !applies_somewhere(time_ranges@, start.secs as int),
            r matches Some(it) ==> it.time_ranges@ == time_ranges@ && it.cur.0 == start
                && it.cur.1 == window_at(time_ranges@, start.secs as int),
    {
        match index_at(&time_ranges, start) {
            Some(idx) => Some(TimeRangesIterator { cur: (start, idx), time_ranges }),
            None => None,
        }
    }

    /// The pending transition, without consuming it.
    pub fn peek(&self) -> (r: (DateTime, usize))
        ensures
            r == self.cur,
    {
        self.cur
    }

    /// Hands out the pending transition and moves to the one after it.
    pub fn next(&mut self) -> (r: Option<(DateTime, usize)>)
        requires
            old(self).wf(),
        ensures
            r == Some(old(self).cur),
            final(self).time_ranges@ == old(self).time_ranges@,
            final(self).cur.0.secs == rate_next(old(self).time_ranges@, old(self).cur.0.secs as int),
            final(self).cur.1 == window_at(old(self).time_ranges@, final(self).cur.0.secs as int),
            final(self).cur.1 < final(self).time_ranges@.len(),
            old(self).cur.0.secs < final(self).cur.0.secs <= old(self).cur.0.secs + 86400,
    {
        let ret = self.cur;
        let date_time = self.cur.0;
        let ghost rs = self.time_ranges@;
        let ghost s = date_time.secs as int;
        proof {
            lemma_rate_next_bounds(rs, s);
        }
        let next_dt = earliest_end_at(&self.time_ranges, date_time);
        proof {
            assert(applies_somewhere(rs, next_dt.secs as int));
        }
        let next_idx = index_at(&self.time_ranges, next_dt);
        proof {
            lemma_last_applying(rs, next_dt.secs as int);
        }
        self.cur = (next_dt, next_idx.unwrap());
        Some(ret)
    }
}

/// The last window of `rs` that applies at `datetime`, by position.
fn index_at(rs: &Vec<TimeRange>, datetime: DateTime) -> (r: Option<usize>)
    ensures
        r matches Some(i) ==> last_applying(rs@, datetime.secs as int) == Some(i as int),
        r is None ==> last_applying(rs@, datetime.secs as int) is None,
        r is None <==> !applies_somewhere(rs@, datetime.secs as int),
{
    let ghost s = datetime.secs as int;
    let mut next_idx: Option<usize> = None;
    let mut i: usize = 0;
    while i < rs.len()
        invariant
            i <= rs@.len(),
            s == datetime.secs,
            next_idx matches Some(j) ==> last_applying(rs@.take(i as int), s) == Some(j as int),
            next_idx is None ==> last_applying(rs@.take(i as int), s) is None,
        decreases rs@.len() - i,
    {
        assert(rs@.take(i + 1).drop_last() =~= rs@.take(i as int));
        assert(rs@.take(i + 1).last() == rs@[i as int]);
        if rs[i].contains(datetime) {
            next_idx = Some(i);
        }
        i += 1;
    }
    assert(rs@.take(rs@.len() as int) =~= rs@);
    proof {
        lemma_last_applying(rs@, s);
    }
    next_idx
}

/// The earliest end among the windows' next occurrences from `datetime`.
fn earliest_end_at(rs: &Vec<TimeRange>, datetime: DateTime) -> (r: DateTime)
    requires
        all_wf(rs@),
        earliest_end(rs@, datetime.secs as int) is Some,
        -MAX_INSTANT <= datetime.secs <= MAX_INSTANT,
    ensures
        earliest_end(rs@, datetime.secs as int) == Some(r.secs as int),
{
    let ghost s = datetime.secs as int;
    let mut best: Option<DateTime> = None;
    let mut i: usize = 0;
    while i < rs.len()
        invariant
            i <= rs@.len(),
            all_wf(rs@),
            -MAX_INSTANT <= datetime.secs <= MAX_INSTANT,
            s == datetime.secs,
            earliest_end(rs@.take(i as int), s) == (match best {
                Some(b) => Some(b.secs as int),
                None => None,
            }),
        decreases rs@.len() - i,
    {
        assert(rs@.take(i + 1).drop_last() =~= rs@.take(i as int));
        assert(rs@.take(i + 1).last() == rs@[i as int]);
        match rs[i].get_next_range_start_at(datetime) {
            Some((_, e)) => {
                best = match best {
                    None => Some(e),
                    Some(b) => if e.secs < b.secs {
                        Some(e)
                    } else {
                        Some(b)
                    },
                };
            },
            None => {},
        }
        i += 1;
    }
    assert(rs@.take(rs@.len() as int) =~= rs@);
    best.unwrap()
}

} // verus!
