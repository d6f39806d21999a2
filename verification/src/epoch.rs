//! Conversion of a TLE epoch to a Unix instant.
//!
//! A TLE dates its elements by a calendar year and a fractional day of year.
//! This module turns that epoch into Unix seconds plus a nanosecond
//! remainder with pure integer arithmetic: one `10^-8` day unit is exactly
//! 864 microseconds, so no precision is lost.

use vstd::prelude::*;
use crate::tle::MeanElements;

verus! {

/// Gregorian leap-year rule.
pub open spec fn is_leap_year(y: int) -> bool {
    y % 4 == 0 && (y % 100 != 0 || y % 400 == 0)
}

/// Days in calendar year `y`.
pub open spec fn days_in_year(y: int) -> int {
    if is_leap_year(y) {
        366
    } else {
        365
    }
}

/// Days from 1970-01-01 to January 1 of year `y` (negative before 1970).
pub open spec fn days_to_year_start(y: int) -> int
    decreases
            if y >= 1970 {
                y - 1970
            } else {
                1970 - y
            },
{
    if y == 1970 {
        0
    } else if y > 1970 {
        days_to_year_start(y - 1) + days_in_year(y - 1)
    } else {
        days_to_year_start(y + 1) - days_in_year(y)
    }
}

/// Nanoseconds into the epoch day written by the fractional-day field:
/// each `10^-8` day is exactly 864 000 nanoseconds.
pub open spec fn epoch_day_nanos(me: MeanElements) -> int {
    me.epoch_day_frac_e8 * 864_000
}

/// The epoch's Unix time in whole seconds (rounded toward the start of the
/// day).
pub open spec fn epoch_unix_seconds(me: MeanElements) -> int {
    (days_to_year_start(me.epoch_year as int) + me.epoch_day - 1) * 86400 + epoch_day_nanos(me)
        / 1_000_000_000
}

/// The nanoseconds of the epoch beyond `epoch_unix_seconds`.
pub open spec fn epoch_unix_nanos(me: MeanElements) -> int {
    epoch_day_nanos(me) % 1_000_000_000
}

/// Computes the number of days from 1970-01-01 to January 1 of `year`.
fn days_to_year_start_exec(year: u32) -> (r: i64)
    requires
        1957 <= year <= 2056,
    ensures
        r == days_to_year_start(year as int),
        -6000 <= r <= 32000,
{
    let mut days: i64 = 0;
    if year >= 1970 {
        let mut y: u32 = 1970;
        while y < year
            invariant
                1970 <= y <= year <= 2056,
                days == days_to_year_start(y as int),
                0 <= days <= (y - 1970) * 366,
            decreases year - y,
        {
            if y % 4 == 0 && (y % 100 != 0 || y % 400 == 0) {
                days = days + 366;
            } else {
                days = days + 365;
            }
            y = y + 1;
        }
        days
    } else {
        let mut y: u32 = 1970;
        while y > year
            invariant
                1957 <= year <= y <= 1970,
                days == days_to_year_start(y as int),
                -(1970 - y) * 366 <= days <= 0,
            decreases y - year,
        {
            y = y - 1;
            if y % 4 == 0 && (y % 100 != 0 || y % 400 == 0) {
                days = days - 366;
            } else {
                days = days - 365;
            }
        }
        days
    }
}

/// Converts a TLE epoch to a Unix instant, exactly.
///
/// Returns whole seconds (which are negative before 1970) and the
/// nanoseconds past them, preserving the full precision of the fractional
/// day.
pub fn epoch_to_unix(me: &MeanElements) -> (r: (i64, u32))
    requires
        me.wf(),
    ensures
        r.0 == epoch_unix_seconds(*me),
        r.1 == epoch_unix_nanos(*me),
        r.1 < 1_000_000_000,
{
    let year_days = days_to_year_start_exec(me.epoch_year);
    let days = year_days + (me.epoch_day - 1) as i64;
    let day_nanos: u64 = me.epoch_day_frac_e8 as u64 * 864_000;
    let secs = days * 86400 + (day_nanos / 1_000_000_000) as i64;
    let nanos = (day_nanos % 1_000_000_000) as u32;
    (secs, nanos)
}

} // verus!
