//! Partitions a period of activity into labelled intervals: which rate band of
//! the week applies, and when the mandatory rest periods fall.
use vstd::prelude::*;

pub mod aggregate;
pub mod break_iter;
pub mod calendar;
pub mod laws;
pub mod rate_timeline;
pub mod schema;
pub mod time_range;
pub mod work_time;

pub use time_range::TimeRange;
pub use work_time::{RobotWorkTime, RobotWorkTimeIterator};

verus! {

/// The square of `x`, or `None` where it does not fit in 64 bits.
pub fn checked_square(x: i64) -> (r: Option<i64>)
    ensures
        r == (if i64::MIN <= x * x <= i64::MAX {
            Some((x * x) as i64)
        } else {
            None
        }),
{
    x.checked_mul(x)
}

} // verus!
