//! The trailing window of days in which commits are counted.
use vstd::prelude::*;

verus! {

/// Length of the window, in days.
pub const LOOKBACK_DAYS: i64 = 183;

/// Seconds in a day.
pub const SECONDS_PER_DAY: i64 = 86400;

/// Nanoseconds in a second.
pub const NANOS_PER_SECOND: i128 = 1_000_000_000;

/// Timestamps this far from 1970 (90 million days, in seconds) always
/// have a calendar day.
pub const DAY_RANGE_SECONDS: i64 = 7_776_000_000_000;

/// The UTC day (days since 1970-01-01) of a timestamp in seconds.
pub open spec fn day_of_second(secs: int) -> int {
    secs / (SECONDS_PER_DAY as int)
}

/// The whole second in which an instant given in nanoseconds falls.
pub open spec fn second_of_nanos(nanos: int) -> int {
    nanos / (NANOS_PER_SECOND as int)
}

/// The start of the window that ends at `now`, in nanoseconds.
pub open spec fn start_of_window(now_secs: int, now_subsec_nanos: int) -> int {
    (now_secs - LOOKBACK_DAYS * SECONDS_PER_DAY) * NANOS_PER_SECOND + now_subsec_nanos
}

/// Relies on chrono's `DateTime::from_timestamp` and `NaiveDate::to_epoch_days`:
/// the UTC calendar day of a timestamp, counted from 1970-01-01, which
/// chrono has for every timestamp within 90 million days of 1970.
#[verifier::external_body]
pub(crate) fn utc_day_of_timestamp(secs: i64) -> (r: Option<i32>)
    ensures
        r matches Some(d) ==> d as int == day_of_second(secs as int),
        -DAY_RANGE_SECONDS <= secs <= DAY_RANGE_SECONDS ==> r is Some,
{
    match chrono::DateTime::from_timestamp(secs, 0) {
        Some(t) => Some(t.date_naive().to_epoch_days()),
        None => None,
    }
}

/// The lookback window: from `start_nanos` (an instant, in nanoseconds
/// since 1970) up to now. `start_day` is the UTC day of that instant.
#[derive(Clone, Copy, Debug)]
pub struct Window {
    pub start_nanos: i128,
    pub start_day: i32,
}

impl Window {
    /// The window is consistent: its day is the day of its start.
    pub open spec fn wf(&self) -> bool {
        self.start_day as int == day_of_second(second_of_nanos(self.start_nanos as int))
    }

    /// Whether a commit made at `secs` lies in the window.
    pub open spec fn spec_includes_timestamp(&self, secs: int) -> bool {
        secs * NANOS_PER_SECOND >= self.start_nanos
    }

    /// Whether a commit dated `day` lies in the window.
    pub open spec fn spec_includes_day(&self, day: int) -> bool {
        day >= self.start_day
    }

    /// The window of `LOOKBACK_DAYS` days that ends at `now` (seconds and
    /// nanoseconds since 1970). `None` only where the start has no
    /// calendar day.
    pub fn ending_at(now_secs: i64, now_subsec_nanos: u32) -> (r: Option<Window>)
        requires
            now_subsec_nanos < NANOS_PER_SECOND,
        ensures
            r matches Some(w) ==> w.wf() && w.start_nanos == start_of_window(
                now_secs as int,
                now_subsec_nanos as int,
            ),
            -DAY_RANGE_SECONDS <= now_secs - LOOKBACK_DAYS * SECONDS_PER_DAY <= DAY_RANGE_SECONDS
                ==> r is Some,
    {
        let start_secs: i128 = now_secs as i128 - (LOOKBACK_DAYS * SECONDS_PER_DAY) as i128;
        let start_nanos: i128 = start_secs * NANOS_PER_SECOND + now_subsec_nanos as i128;
        proof {
            assert(second_of_nanos(start_nanos as int) == start_secs) by (nonlinear_arith)
                requires
                    start_nanos == start_secs * 1_000_000_000 + now_subsec_nanos,
                    0 <= now_subsec_nanos < 1_000_000_000,
            {
            }
        }
        if start_secs < i64::MIN as i128 || start_secs > i64::MAX as i128 {
            return None;
        }
        match utc_day_of_timestamp(start_secs as i64) {
            Some(d) => Some(Window { start_nanos, start_day: d }),
            None => None,
        }
    }

    /// Whether a commit made at `secs` (seconds since 1970) lies in the
    /// window: a commit exactly at its start does.
    pub fn includes_timestamp(&self, secs: i64) -> (r: bool)
        ensures
            r == self.spec_includes_timestamp(secs as int),
    {
        (secs as i128) * NANOS_PER_SECOND >= self.start_nanos
    }

    /// Whether a commit dated `day` lies in the window: the start's own
    /// day does.
    pub fn includes_day(&self, day: i32) -> (r: bool)
        ensures
            r == self.spec_includes_day(day as int),
    {
        day >= self.start_day
    }

    /// Whether a repository is skipped as stale: its marker was last
    /// modified (nanoseconds since 1970) before the window started. A
    /// marker whose time could not be read is never stale.
    pub fn is_stale(&self, marker_mtime_nanos: Option<i128>) -> (r: bool)
        ensures
            r == (marker_mtime_nanos matches Some(m) && m < self.start_nanos),
    {
        match marker_mtime_nanos {
            Some(m) => m < self.start_nanos,
            None => false,
        }
    }
}

/// The window's boundary: a commit dated on the start's day is counted
/// and one dated a day earlier is not; a commit made exactly at the start
/// is counted and one made a day earlier is not.
pub proof fn lemma_window_boundary(w: Window, secs: int)
    requires
        secs * NANOS_PER_SECOND == w.start_nanos,
    ensures
        w.spec_includes_day(w.start_day as int),
        !w.spec_includes_day(w.start_day - 1),
        w.spec_includes_timestamp(secs),
        !w.spec_includes_timestamp(secs - SECONDS_PER_DAY),
{
}

} // verus!
