//! The input of one computation: the activity's span and four rate bands, and
//! what is owed for it.
use crate::aggregate::{activity_totals, owed_amount, owed_total};
use crate::rate_timeline::all_wf;
use crate::work_time::initial_state;
use crate::calendar::{DateTime, TimeOfDay, Weekday};
use crate::rate_timeline::{covers_all, covers_week};
use crate::time_range::TimeRange;
use crate::work_time::{RobotWorkTime, SPAN_BOUND};
use vstd::prelude::*;

verus! {

/// Monday to Friday.
pub fn weekday() -> (r: Vec<Weekday>)
    ensures
        r@ == seq![Weekday::Mon, Weekday::Tue, Weekday::Wed, Weekday::Thu, Weekday::Fri],
{
    vec![Weekday::Mon, Weekday::Tue, Weekday::Wed, Weekday::Thu, Weekday::Fri]
}

/// Saturday and Sunday.
pub fn weekend() -> (r: Vec<Weekday>)
    ensures
        r@ == seq![Weekday::Sat, Weekday::Sun],
{
    vec![Weekday::Sat, Weekday::Sun]
}

/// Valid on Monday to Friday.
pub open spec fn weekday_mask() -> [bool; 7] {
    [true, true, true, true, true, false, false]
}

/// Valid on Saturday and Sunday.
pub open spec fn weekend_mask() -> [bool; 7] {
    [false, false, false, false, false, true, true]
}

/// Why no amount could be computed.
#[derive(Clone, Copy, Debug, PartialEq, Eq, Structural)]
pub enum ScheduleError {
    /// The shift's start or end lies beyond the supported range.
    OutOfRange,
    /// Some instant of the week falls in no rate band.
    Uncovered,
    /// The amount does not fit in 64 bits, or a band was credited a negative time.
    Overflow,
}

/// The activity's span.
#[derive(Clone, Copy, Debug, PartialEq, Eq, Structural)]
pub struct Shift {
    pub start: DateTime,
    pub end: DateTime,
}

/// The band for weekdays by day.
#[derive(Clone, Copy, Debug, PartialEq, Eq, Structural)]
pub struct StandardDay {
    pub start: TimeOfDay,
    pub end: TimeOfDay,
    /// Currency units per minute.
    pub value: u64,
}

/// The band for weekdays by night.
#[derive(Clone, Copy, Debug, PartialEq, Eq, Structural)]
pub struct StandardNight {
    pub start: TimeOfDay,
    pub end: TimeOfDay,
    pub value: u64,
}

/// The band for weekend days by day.
#[derive(Clone, Copy, Debug, PartialEq, Eq, Structural)]
pub struct ExtraDay {
    pub start: TimeOfDay,
    pub end: TimeOfDay,
    pub value: u64,
}

/// The band for weekend days by night.
#[derive(Clone, Copy, Debug, PartialEq, Eq, Structural)]
pub struct ExtraNight {
    pub start: TimeOfDay,
    pub end: TimeOfDay,
    pub value: u64,
}

/// The four rate bands.
#[derive(Clone, Copy, Debug, PartialEq, Eq, Structural)]
pub struct RoboRate {
    pub standard_day: StandardDay,
    pub standard_night: StandardNight,
    pub extra_day: ExtraDay,
    pub extra_night: ExtraNight,
}

/// A shift and the rates that apply during it.
#[derive(Clone, Copy, Debug, PartialEq, Eq, Structural)]
pub struct RobotWorkSchema {
    pub shift: Shift,
    pub robo_rate: RoboRate,
}

impl RobotWorkSchema {
    /// Every band's bounds are times of day.
    pub open spec fn wf(self) -> bool {
        let r = self.robo_rate;
        &&& r.standard_day.start.wf() && r.standard_day.end.wf()
        &&& r.standard_night.start.wf() && r.standard_night.end.wf()
        &&& r.extra_day.start.wf() && r.extra_day.end.wf()
        &&& r.extra_night.start.wf() && r.extra_night.end.wf()
    }

    /// The bands as windows: standard day, standard night, extra day, extra night.
    pub open spec fn windows(self) -> Seq<TimeRange> {
        let r = self.robo_rate;
        seq![
            TimeRange { start: r.standard_day.start, end: r.standard_day.end, valid_weekdays: weekday_mask() },
            TimeRange { start: r.standard_night.start, end: r.standard_night.end, valid_weekdays: weekday_mask() },
            TimeRange { start: r.extra_day.start, end: r.extra_day.end, valid_weekdays: weekend_mask() },
            TimeRange { start: r.extra_night.start, end: r.extra_night.end, valid_weekdays: weekend_mask() },
        ]
    }

    /// The per-minute rates, in the order of `windows`.
    pub open spec fn rate_values(self) -> Seq<u64> {
        let r = self.robo_rate;
        seq![r.standard_day.value, r.standard_night.value, r.extra_day.value, r.extra_night.value]
    }

    /// What is owed for the shift, or why that cannot be computed.
    pub open spec fn owed(self) -> Result<u64, ScheduleError> {
        let (start, end) = (self.shift.start.secs as int, self.shift.end.secs as int);
        let rs = self.windows();
        if !(-SPAN_BOUND <= start <= SPAN_BOUND && -SPAN_BOUND <= end <= SPAN_BOUND) {
            Err(ScheduleError::OutOfRange)
        } else if !covers_all(rs) {
            Err(ScheduleError::Uncovered)
        } else {
            match owed_total(
                activity_totals(rs, initial_state(rs, start, end)),
                self.rate_values(),
            ) {
                Some(v) => Ok(v),
                None => Err(ScheduleError::Overflow),
            }
        }
    }

    /// The bands as windows: standard day, standard night, extra day, extra night.
    pub fn time_ranges(&self) -> (r: Vec<TimeRange>)
        ensures
            r@ == self.windows(),
    {
        let r = self.robo_rate;
        let wd = [true, true, true, true, true, false, false];
        let we = [false, false, false, false, false, true, true];
        vec![
            TimeRange { start: r.standard_day.start, end: r.standard_day.end, valid_weekdays: wd },
            TimeRange { start: r.standard_night.start, end: r.standard_night.end, valid_weekdays: wd },
            TimeRange { start: r.extra_day.start, end: r.extra_day.end, valid_weekdays: we },
            TimeRange { start: r.extra_night.start, end: r.extra_night.end, valid_weekdays: we },
        ]
    }

    /// The per-minute rates, in the order of `time_ranges`.
    pub fn rates(&self) -> (r: Vec<u64>)
        ensures
            r@ == self.rate_values(),
    {
        let r = self.robo_rate;
        vec![r.standard_day.value, r.standard_night.value, r.extra_day.value, r.extra_night.value]
    }

    /// What is owed for the shift: for each band, the whole minutes during which it
    /// applied times its rate, summed; rest periods are not paid.
    pub fn total_owed(&self) -> (r: Result<u64, ScheduleError>)
        requires
            self.wf(),
        ensures
            r == self.owed(),
    {
        let (start, end) = (self.shift.start, self.shift.end);
        if !(-SPAN_BOUND <= start.secs && start.secs <= SPAN_BOUND && -SPAN_BOUND <= end.secs
            && end.secs <= SPAN_BOUND) {
            return Err(ScheduleError::OutOfRange);
        }
        let rs = self.time_ranges();
        if !covers_week(&rs) {
            return Err(ScheduleError::Uncovered);
        }
        let rates = self.rates();
        let work = RobotWorkTime::new(start, end, rs);
        let ghost init = work.initial();
        proof {
            assert(all_wf(work.time_range@)) by {
                assert forall|i: int| 0 <= i < work.time_range@.len() implies #[trigger] work.time_range@[i].wf() by {
                    if i < 2 {
                        assert(work.time_range@[i].valid_on(0));
                    } else {
                        assert(work.time_range@[i].valid_on(5));
                    }
                }
            }
        }
        let durations = work.window_durations();
        proof {
            assert(durations@.map_values(|x: i128| x as int) =~= activity_totals(self.windows(), init));
        }
        match owed_amount(&durations, &rates) {
            Some(v) => Ok(v),
            None => Err(ScheduleError::Overflow),
        }
    }
}

} // verus!
