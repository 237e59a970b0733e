use std::str::FromStr;

use chrono::{Datelike, Duration, NaiveDateTime, Timelike};
use robot_rate_calculator::break_iter::BreakIterator;
use robot_rate_calculator::calendar::{DateTime, TimeOfDay};
use robot_rate_calculator::rate_timeline::TimeRangesIterator;
use robot_rate_calculator::schema::{weekday, weekend};
use robot_rate_calculator::time_range::TimeRange;
use robot_rate_calculator::work_time::{RobotWorkTime, RobotWorkTimeIterator};

fn dt(s: &str) -> DateTime {
    let n = NaiveDateTime::from_str(s).unwrap();
    DateTime::from_ymd_hms(n.year(), n.month(), n.day(), n.hour(), n.minute(), n.second()).unwrap()
}

fn hms(h: u32, m: u32, s: u32) -> TimeOfDay {
    TimeOfDay::from_hms(h, m, s)
}

fn standard_ranges() -> Vec<TimeRange> {
    vec![
        TimeRange::new((hms(7, 0, 0), hms(23, 0, 0)), weekday()),
        TimeRange::new((hms(23, 0, 0), hms(7, 0, 0)), weekday()),
        TimeRange::new((hms(7, 0, 0), hms(23, 0, 0)), weekend()),
        TimeRange::new((hms(23, 0, 0), hms(7, 0, 0)), weekend()),
    ]
}

#[test]
fn robot_work_time_iter_test() {
    let t = RobotWorkTime::new(dt("2021-09-05T22:00:00"), dt("2021-09-06T12:59:00"), standard_ranges());

    let mut time_ranges_iter =
        TimeRangesIterator::new(dt("2021-09-05T22:00:00"), standard_ranges()).unwrap();
    time_ranges_iter.next();

    let mut it = RobotWorkTimeIterator {
        cur: (dt("2021-09-05T22:00:00"), Some(2)),
        end: dt("2021-09-06T12:59:00"),
        break_iter: BreakIterator {
            start: dt("2021-09-05T22:00:00"),
            work_duration: Duration::hours(8).num_seconds(),
            rest_duration: Duration::hours(1).num_seconds(),
        },
        breaking: None,
        time_ranges_iter,
        is_finish: false,
    };

    assert_eq!(t.into_iter(), it);

    assert_eq!(it.next(), Some((dt("2021-09-05T22:00:00"), Some(2))));
    assert_eq!(it.next(), Some((dt("2021-09-05T23:00:00"), Some(3))));
    assert_eq!(it.next(), Some((dt("2021-09-06T00:00:00"), Some(1))));
    assert_eq!(it.next(), Some((dt("2021-09-06T06:00:00"), None)));
    assert_eq!(it.next(), Some((dt("2021-09-06T07:00:00"), Some(0))));
    assert_eq!(it.next(), Some((dt("2021-09-06T12:59:00"), None)));
    assert_eq!(it.next(), None);
}

#[test]
fn robot_work_time_iter_test_start_early() {
    let t = RobotWorkTime::new(dt("2021-09-10T00:01:00"), dt("2021-09-12T00:30:00"), standard_ranges());
    let mut it = t.into_iter();

    assert_eq!(it.next(), Some((dt("2021-09-10T00:01:00"), Some(1))));
    assert_eq!(it.next(), Some((dt("2021-09-10T07:00:00"), Some(0))));
    assert_eq!(it.next(), Some((dt("2021-09-10T08:01:00"), None)));
    assert_eq!(it.next(), Some((dt("2021-09-10T09:01:00"), Some(0))));
    assert_eq!(it.next(), Some((dt("2021-09-10T17:01:00"), None)));
    assert_eq!(it.next(), Some((dt("2021-09-10T18:01:00"), Some(0))));
    assert_eq!(it.next(), Some((dt("2021-09-10T23:00:00"), Some(1))));
    assert_eq!(it.next(), Some((dt("2021-09-11T00:00:00"), Some(3))));
    assert_eq!(it.next(), Some((dt("2021-09-11T02:01:00"), None)));
    assert_eq!(it.next(), Some((dt("2021-09-11T03:01:00"), Some(3))));
    assert_eq!(it.next(), Some((dt("2021-09-11T07:00:00"), Some(2))));
    assert_eq!(it.next(), Some((dt("2021-09-11T11:01:00"), None)));
    assert_eq!(it.next(), Some((dt("2021-09-11T12:01:00"), Some(2))));
    assert_eq!(it.next(), Some((dt("2021-09-11T20:01:00"), None)));
    assert_eq!(it.next(), Some((dt("2021-09-11T21:01:00"), Some(2))));
    assert_eq!(it.next(), Some((dt("2021-09-11T23:00:00"), Some(3))));
    assert_eq!(it.next(), Some((dt("2021-09-12T00:00:00"), Some(3))));
    assert_eq!(it.next(), Some((dt("2021-09-12T00:30:00"), None)));
    assert_eq!(it.next(), None);
}

#[test]
fn robot_work_time_iter_test_start_late() {
    let t = RobotWorkTime::new(dt("2021-09-10T23:01:00"), dt("2021-09-11T12:55:00"), standard_ranges());
    let mut it = t.into_iter();

    assert_eq!(it.next(), Some((dt("2021-09-10T23:01:00"), Some(1))));
    assert_eq!(it.next(), Some((dt("2021-09-11T00:00:00"), Some(3))));
    assert_eq!(it.next(), Some((dt("2021-09-11T07:00:00"), Some(2))));
    assert_eq!(it.next(), Some((dt("2021-09-11T07:01:00"), None)));
    assert_eq!(it.next(), Some((dt("2021-09-11T08:01:00"), Some(2))));
    assert_eq!(it.next(), Some((dt("2021-09-11T12:55:00"), None)));
    assert_eq!(it.next(), None);
}

#[test]
fn robot_work_time_iter_test_complex_scheme() {
    let t = RobotWorkTime::new(
        dt("2021-09-10T23:01:00"),
        dt("2021-09-11T20:55:00"),
        vec![
            TimeRange::new((hms(7, 0, 0), hms(23, 0, 0)), weekday()),
            TimeRange::new((hms(23, 0, 0), hms(7, 0, 0)), weekday()),
            TimeRange::new((hms(3, 0, 0), hms(15, 0, 0)), weekend()),
            TimeRange::new((hms(15, 0, 0), hms(3, 0, 0)), weekend()),
        ],
    );
    let mut it = t.into_iter();

    assert_eq!(it.next(), Some((dt("2021-09-10T23:01:00"), Some(1))));
    assert_eq!(it.next(), Some((dt("2021-09-11T00:00:00"), Some(3))));
    assert_eq!(it.next(), Some((dt("2021-09-11T03:00:00"), Some(2))));
    assert_eq!(it.next(), Some((dt("2021-09-11T07:01:00"), None)));
    assert_eq!(it.next(), Some((dt("2021-09-11T08:01:00"), Some(2))));
    assert_eq!(it.next(), Some((dt("2021-09-11T15:00:00"), Some(3))));
    assert_eq!(it.next(), Some((dt("2021-09-11T16:01:00"), None)));
    assert_eq!(it.next(), Some((dt("2021-09-11T17:01:00"), Some(3))));
    assert_eq!(it.next(), Some((dt("2021-09-11T20:55:00"), None)));
    assert_eq!(it.next(), None);
}

#[test]
fn time_seg_iter_test() {
    let mut it = TimeRangesIterator::new(dt("2021-09-05T22:00:00"), standard_ranges()).unwrap();

    assert_eq!(it.next(), Some((dt("2021-09-05T22:00:00"), 2)));
    assert_eq!(it.next(), Some((dt("2021-09-05T23:00:00"), 3)));
    assert_eq!(it.next(), Some((dt("2021-09-06T00:00:00"), 1)));
    assert_eq!(it.next(), Some((dt("2021-09-06T07:00:00"), 0)));
    assert_eq!(it.next(), Some((dt("2021-09-06T23:00:00"), 1)));
}

#[test]
fn break_iter_test() {
    let mut it = BreakIterator {
        start: dt("2021-09-05T22:00:00"),
        work_duration: Duration::hours(8).num_seconds(),
        rest_duration: Duration::hours(1).num_seconds(),
    };

    assert_eq!(it.next(), Some((dt("2021-09-06T06:00:00"), dt("2021-09-06T07:00:00"))));
    assert_eq!(it.next(), Some((dt("2021-09-06T15:00:00"), dt("2021-09-06T16:00:00"))));
    assert_eq!(it.next(), Some((dt("2021-09-07T00:00:00"), dt("2021-09-07T01:00:00"))));
}

#[test]
fn integration_test_2() {
    let t = RobotWorkTime::new(dt("2038-01-11T07:00:00"), dt("2038-01-17T19:00:00"), standard_ranges());
    let s = t.clone().window_durations();
    let res = (s[0] / 60) * 20 + (s[1] / 60) * 25 + (s[2] / 60) * 30 + (s[3] / 60) * 35;
    assert_eq!(res, 202200);

    // The same pairs, folded by hand over the handed-out sequence.
    let mut acc = vec![0i64; 4];
    let mut it = t.into_iter();
    let mut prev = it.next().unwrap();
    while let Some(next) = it.next() {
        if let Some(idx) = prev.1 {
            acc[idx] += next.0.secs - prev.0.secs;
        }
        prev = next;
    }
    let res = acc[0] / 60 * 20 + acc[1] / 60 * 25 + acc[2] / 60 * 30 + acc[3] / 60 * 35;
    assert_eq!(res, 202200);
}
