use std::str::FromStr;

use chrono::{Datelike, NaiveDate, NaiveDateTime, Timelike};
use robot_rate_calculator::aggregate::owed_amount;
use robot_rate_calculator::calendar::{DateTime, TimeOfDay, Weekday};
use robot_rate_calculator::rate_timeline::covers_week;
use robot_rate_calculator::schema::{
    weekday, weekend, ExtraDay, ExtraNight, RoboRate, RobotWorkSchema, ScheduleError, Shift,
    StandardDay, StandardNight,
};
use robot_rate_calculator::{checked_square, RobotWorkTime, TimeRange};

fn dt(s: &str) -> DateTime {
    let n = NaiveDateTime::from_str(s).unwrap();
    DateTime::from_ymd_hms(n.year(), n.month(), n.day(), n.hour(), n.minute(), n.second()).unwrap()
}

fn hms(h: u32, m: u32, s: u32) -> TimeOfDay {
    TimeOfDay::from_hms(h, m, s)
}

fn standard_ranges() -> Vec<TimeRange> {
    vec![
        TimeRange::new((hms(7, 0, 0), hms(23, 0, 0)), weekday()),
        TimeRange::new((hms(23, 0, 0), hms(7, 0, 0)), weekday()),
        TimeRange::new((hms(7, 0, 0), hms(23, 0, 0)), weekend()),
        TimeRange::new((hms(23, 0, 0), hms(7, 0, 0)), weekend()),
    ]
}

fn collect(start: &str, end: &str) -> Vec<(DateTime, Option<usize>)> {
    let mut it = RobotWorkTime::new(dt(start), dt(end), standard_ranges()).into_iter();
    let mut out = Vec::new();
    while let Some(p) = it.next() {
        out.push(p);
    }
    out
}

fn schema(start: &str, end: &str, rates: [u64; 4]) -> RobotWorkSchema {
    RobotWorkSchema {
        shift: Shift { start: dt(start), end: dt(end) },
        robo_rate: RoboRate {
            standard_day: StandardDay { start: hms(7, 0, 0), end: hms(23, 0, 0), value: rates[0] },
            standard_night: StandardNight { start: hms(23, 0, 0), end: hms(7, 0, 0), value: rates[1] },
            extra_day: ExtraDay { start: hms(7, 0, 0), end: hms(23, 0, 0), value: rates[2] },
            extra_night: ExtraNight { start: hms(23, 0, 0), end: hms(7, 0, 0), value: rates[3] },
        },
    }
}

#[test]
fn intervals_tile_the_span() {
    let out = collect("2021-09-10T00:01:00", "2021-09-13T05:17:00");
    assert_eq!(out[0].0, dt("2021-09-10T00:01:00"));
    assert_eq!(*out.last().unwrap(), (dt("2021-09-13T05:17:00"), None));
    for w in out.windows(2) {
        assert!(w[0].0.secs <= w[1].0.secs);
    }
    let total: i64 = out.windows(2).map(|w| w[1].0.secs - w[0].0.secs).sum();
    assert_eq!(total, dt("2021-09-13T05:17:00").secs - dt("2021-09-10T00:01:00").secs);
}

#[test]
fn window_durations_and_rests_add_up_to_the_span() {
    let start = dt("2021-09-10T00:01:00");
    let end = dt("2021-09-13T05:17:00");
    let d = RobotWorkTime::new(start, end, standard_ranges()).window_durations();
    let out = collect("2021-09-10T00:01:00", "2021-09-13T05:17:00");
    let rest: i64 = out
        .windows(2)
        .filter(|w| w[0].1.is_none())
        .map(|w| w[1].0.secs - w[0].0.secs)
        .sum();
    assert_eq!(d.iter().sum::<i128>() + rest as i128, (end.secs - start.secs) as i128);
}

#[test]
fn rest_periods_start_nine_hours_apart() {
    let start = dt("2021-09-10T00:01:00");
    let end = dt("2021-09-13T05:17:00");
    let out = collect("2021-09-10T00:01:00", "2021-09-13T05:17:00");
    let rests: Vec<i64> = out.iter().filter(|p| p.1.is_none() && p.0 != end).map(|p| p.0.secs).collect();
    assert_eq!(rests[0], start.secs + 8 * 3600);
    for w in rests.windows(2) {
        assert_eq!(w[1] - w[0], 9 * 3600);
    }
    assert_eq!(rests.len(), 8);
}

#[test]
fn rest_wins_a_tie_with_a_transition() {
    // Monday 15:00 + 8h is 23:00, where the night band starts.
    let out = collect("2021-09-06T15:00:00", "2021-09-07T02:00:00");
    assert_eq!(
        out,
        vec![
            (dt("2021-09-06T15:00:00"), Some(0)),
            (dt("2021-09-06T23:00:00"), None),
            (dt("2021-09-07T00:00:00"), Some(1)),
            (dt("2021-09-07T00:00:00"), Some(1)),
            (dt("2021-09-07T02:00:00"), None),
        ]
    );
}

#[test]
fn transition_inside_a_rest_is_absorbed() {
    let out = collect("2021-09-06T14:30:00", "2021-09-07T01:00:00");
    assert_eq!(
        out,
        vec![
            (dt("2021-09-06T14:30:00"), Some(0)),
            (dt("2021-09-06T22:30:00"), None),
            (dt("2021-09-06T23:30:00"), Some(1)),
            (dt("2021-09-07T00:00:00"), Some(1)),
            (dt("2021-09-07T01:00:00"), None),
        ]
    );
}

#[test]
fn rerunning_gives_the_same_sequence() {
    let a = collect("2038-01-11T07:00:00", "2038-01-17T19:00:00");
    let b = collect("2038-01-11T07:00:00", "2038-01-17T19:00:00");
    assert_eq!(a, b);
}

#[test]
fn empty_and_reversed_spans_finish_at_once() {
    assert_eq!(collect("2021-09-06T10:00:00", "2021-09-06T10:00:00"), vec![(dt("2021-09-06T10:00:00"), None)]);
    assert_eq!(collect("2021-09-06T10:00:00", "2021-09-06T09:00:00"), vec![(dt("2021-09-06T09:00:00"), None)]);
    let d = RobotWorkTime::new(dt("2021-09-06T10:00:00"), dt("2021-09-06T09:00:00"), standard_ranges())
        .window_durations();
    assert_eq!(d, vec![0, 0, 0, 0]);
}

#[test]
fn contains_follows_weekday_and_time() {
    let night = TimeRange::new((hms(23, 0, 0), hms(7, 0, 0)), weekday());
    assert!(night.contains(dt("2021-09-06T23:30:00")));
    assert!(night.contains(dt("2021-09-07T06:59:59")));
    assert!(!night.contains(dt("2021-09-07T07:00:00")));
    // Sunday early morning is not a weekday.
    assert!(!night.contains(dt("2021-09-05T03:00:00")));
    let day = TimeRange::new((hms(7, 0, 0), hms(23, 0, 0)), weekend());
    assert!(day.contains(dt("2021-09-04T07:00:00")));
    assert!(!day.contains(dt("2021-09-04T23:00:00")));
}

#[test]
fn next_range_is_cut_at_midnight_and_moved_to_a_valid_day() {
    let night = TimeRange::new((hms(23, 0, 0), hms(7, 0, 0)), weekend());
    // Friday 23:30: the occurrence moves to Saturday and ends at midnight.
    assert_eq!(
        night.get_next_range_start_at(dt("2021-09-10T23:30:00")),
        Some((dt("2021-09-11T23:30:00"), dt("2021-09-12T00:00:00")))
    );
    // Sunday 02:00: already on a valid day, ends at 07:00.
    assert_eq!(
        night.get_next_range_start_at(dt("2021-09-12T02:00:00")),
        Some((dt("2021-09-12T02:00:00"), dt("2021-09-12T07:00:00")))
    );
    assert_eq!(night.get_next_range_start_at(dt("2021-09-12T12:00:00")), None);
    let day = TimeRange::new((hms(7, 0, 0), hms(23, 0, 0)), vec![Weekday::Wed]);
    assert_eq!(
        day.get_next_range_start_at(dt("2021-09-09T08:00:00")),
        Some((dt("2021-09-15T08:00:00"), dt("2021-09-15T23:00:00")))
    );
}

#[test]
fn week_coverage_is_checked_exactly() {
    assert!(covers_week(&standard_ranges()));
    let mut gap = standard_ranges();
    gap[3] = TimeRange::new((hms(23, 0, 0), hms(6, 59, 59)), weekend());
    assert!(!covers_week(&gap));
}

#[test]
fn calendar_values_come_from_chrono() {
    assert_eq!(DateTime::from_ymd_hms(1, 1, 1, 0, 0, 0), Some(DateTime { secs: 86400 }));
    assert_eq!(DateTime::from_ymd_hms(2021, 2, 30, 0, 0, 0), None);
    assert_eq!(DateTime::from_ymd_hms(2021, 2, 3, 24, 0, 0), None);
    let d = NaiveDate::from_ymd_opt(2021, 9, 5).unwrap().num_days_from_ce() as i64;
    let t = dt("2021-09-05T22:00:00");
    assert_eq!(t.secs, d * 86400 + 22 * 3600);
    assert_eq!(t.day(), d);
    assert_eq!(t.time(), hms(22, 0, 0));
    assert_eq!(t.weekday_index(), 6);
    assert_eq!(dt("2021-09-06T00:00:00").weekday_index(), 0);
    for (y, m, d) in [(-1, 12, 31), (0, 1, 1), (1, 1, 1), (1970, 1, 1), (2038, 1, 19)] {
        let ours = DateTime::from_ymd_hms(y, m, d, 23, 59, 59).unwrap();
        let date = NaiveDate::from_ymd_opt(y, m, d).unwrap();
        assert_eq!(ours.weekday_index(), date.weekday().num_days_from_monday() as usize);
        assert_eq!(ours.time(), hms(23, 59, 59));
    }
}

#[test]
fn owed_amount_counts_whole_minutes() {
    assert_eq!(owed_amount(&vec![119, 60, 0], &vec![10, 3, 1000]), Some(13));
    assert_eq!(owed_amount(&vec![-60, 60], &vec![1, 1]), None);
    assert_eq!(owed_amount(&vec![60 * (u64::MAX as i128), 60], &vec![1, 1]), None);
    assert_eq!(owed_amount(&vec![60 * (u64::MAX as i128) * 4], &vec![0]), Some(0));
}

#[test]
fn total_owed_reports_each_error() {
    let ok = schema("2038-01-11T07:00:00", "2038-01-17T19:00:00", [20, 25, 30, 35]);
    assert_eq!(ok.total_owed(), Ok(202200));
    let mut gap = ok;
    gap.robo_rate.extra_night.end = hms(6, 0, 0);
    assert_eq!(gap.total_owed(), Err(ScheduleError::Uncovered));
    let mut far = ok;
    far.shift.end = DateTime { secs: i64::MAX };
    assert_eq!(far.total_owed(), Err(ScheduleError::OutOfRange));
    let huge = schema("2038-01-11T07:00:00", "2038-01-17T19:00:00", [u64::MAX, 1, 1, 1]);
    assert_eq!(huge.total_owed(), Err(ScheduleError::Overflow));
}

#[test]
fn simple_test() {
    let json_input = r#"{
  "shift": {
      "start": "2038-01-01T20:15:00",
      "end": "2038-01-02T04:15:00"
  },
  "roboRate": {
    "standardDay": {
      "start": "07:00:00",
      "end": "23:00:00",
      "value": 20
    },
    "standardNight": {
      "start": "23:00:00",
      "end": "07:00:00",
      "value": 25
    },
    "extraDay": {
      "start": "07:00:00",
      "end": "23:00:00",
      "value": 30
    },
    "extraNight": {
      "start": "23:00:00",
      "end": "07:00:00",
      "value": 35
    }
  }
}"#;
    let v: serde_json::Value = serde_json::from_str(json_input).unwrap();
    let time = |band: &str, key: &str| {
        let t = chrono::NaiveTime::from_str(v["roboRate"][band][key].as_str().unwrap()).unwrap();
        hms(t.hour(), t.minute(), t.second())
    };
    let value = |band: &str| v["roboRate"][band]["value"].as_u64().unwrap();
    let s = RobotWorkSchema {
        shift: Shift {
            start: dt(v["shift"]["start"].as_str().unwrap()),
            end: dt(v["shift"]["end"].as_str().unwrap()),
        },
        robo_rate: RoboRate {
            standard_day: StandardDay { start: time("standardDay", "start"), end: time("standardDay", "end"), value: value("standardDay") },
            standard_night: StandardNight { start: time("standardNight", "start"), end: time("standardNight", "end"), value: value("standardNight") },
            extra_day: ExtraDay { start: time("extraDay", "start"), end: time("extraDay", "end"), value: value("extraDay") },
            extra_night: ExtraNight { start: time("extraNight", "start"), end: time("extraNight", "end"), value: value("extraNight") },
        },
    };
    // Friday 20:15-23:00 by day, 23:00-24:00 by night, Saturday 00:00-04:15 extra night.
    assert_eq!(s.total_owed(), Ok(165 * 20 + 60 * 25 + 255 * 35));
}

#[test]
fn checked_square_reports_overflow() {
    assert_eq!(checked_square(-12), Some(144));
    assert_eq!(checked_square(3_037_000_499), Some(9_223_372_030_926_249_001));
    assert_eq!(checked_square(3_037_000_500), None);
}

#[test]
fn rest_absorbs_only_one_transition() {
    let all = || vec![Weekday::Mon, Weekday::Tue, Weekday::Wed, Weekday::Thu, Weekday::Fri, Weekday::Sat, Weekday::Sun];
    let ranges = vec![
        TimeRange::new((hms(7, 0, 0), hms(23, 15, 0)), all()),
        TimeRange::new((hms(23, 15, 0), hms(23, 45, 0)), all()),
        TimeRange::new((hms(23, 45, 0), hms(7, 0, 0)), all()),
    ];
    assert!(covers_week(&ranges));
    let mut it = RobotWorkTime::new(dt("2021-09-06T14:50:00"), dt("2021-09-07T02:00:00"), ranges).into_iter();
    let mut out = Vec::new();
    while let Some(p) = it.next() {
        out.push(p);
    }
    assert_eq!(
        out,
        vec![
            (dt("2021-09-06T14:50:00"), Some(0)),
            (dt("2021-09-06T22:50:00"), None),
            (dt("2021-09-06T23:50:00"), Some(1)),
            (dt("2021-09-06T23:45:00"), Some(2)),
            (dt("2021-09-07T00:00:00"), Some(2)),
            (dt("2021-09-07T02:00:00"), None),
        ]
    );
}
