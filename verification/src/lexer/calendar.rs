//! Dates of the proleptic Gregorian calendar and the Unix timestamps of their
//! times of day, as `chrono` computes them.
use vstd::prelude::*;

verus! {

pub open spec fn is_leap_year(y: int) -> bool {
    y % 4 == 0 && (y % 100 != 0 || y % 400 == 0)
}

pub open spec fn days_in_month(y: int, m: int) -> int {
    if m == 2 {
        if is_leap_year(y) {
            29int
        } else {
            28int
        }
    } else if m == 4 || m == 6 || m == 9 || m == 11 {
        30
    } else {
        31
    }
}

/// Days in the months of year `y` before month `m`.
pub open spec fn days_before_month(y: int, m: int) -> int {
    let common: int = if m <= 1 {
        0
    } else if m == 2 {
        31
    } else if m == 3 {
        59
    } else if m == 4 {
        90
    } else if m == 5 {
        120
    } else if m == 6 {
        151
    } else if m == 7 {
        181
    } else if m == 8 {
        212
    } else if m == 9 {
        243
    } else if m == 10 {
        273
    } else if m == 11 {
        304
    } else {
        334
    };
    if m > 2 && is_leap_year(y) {
        common + 1
    } else {
        common
    }
}

/// Leap years from year 1 up to year `y` (counted negatively below 1).
pub open spec fn leap_years_through(y: int) -> int {
    y / 4 - y / 100 + y / 400
}

/// Days from 1970-01-01 to the date `y`-`m`-`d`.
pub open spec fn days_from_epoch(y: int, m: int, d: int) -> int {
    365 * (y - 1970) + (leap_years_through(y - 1) - leap_years_through(1969)) + days_before_month(
        y,
        m,
    ) + d - 1
}

/// Seconds from 1970-01-01T00:00:00 UTC to the given date and time of day,
/// not counting leap seconds.
pub open spec fn unix_seconds(y: int, mo: int, d: int, h: int, mi: int, s: int) -> int {
    days_from_epoch(y, mo, d) * 86400 + h * 3600 + mi * 60 + s
}

/// Dates that `chrono::NaiveDate` can hold: years -262143 to 262142, and days
/// that exist in their month.
pub open spec fn date_exists(y: int, m: int, d: int) -> bool {
    &&& -262143 <= y <= 262142
    &&& 1 <= m <= 12
    &&& 1 <= d <= days_in_month(y, m)
}

/// Times of day that `chrono::NaiveTime` can hold; nanoseconds past a second
/// only in the 59th second, where they stand for a leap second.
pub open spec fn time_exists(h: int, mi: int, s: int, n: int) -> bool {
    &&& 0 <= h < 24
    &&& 0 <= mi < 60
    &&& 0 <= s < 60
    &&& 0 <= n
    &&& (n < 1_000_000_000 || (s == 59 && n < 2_000_000_000))
}

/// The Unix epoch is day zero.
pub proof fn lemma_epoch_is_day_zero()
    ensures
        days_from_epoch(1970, 1, 1) == 0,
        unix_seconds(1970, 1, 1, 0, 0, 0) == 0,
{
}

/// Days follow one another: the day after a day of a month is one day later,
/// the first of a month comes one day after the last day of the month before,
/// and the first of January one day after the thirty-first of December.
pub proof fn lemma_days_follow(y: int, m: int, d: int)
    requires
        1 <= m <= 12,
        1 <= d,
    ensures
        d < days_in_month(y, m) ==> days_from_epoch(y, m, d + 1) == days_from_epoch(y, m, d) + 1,
        m < 12 ==> days_from_epoch(y, m + 1, 1) == days_from_epoch(y, m, days_in_month(y, m)) + 1,
        days_from_epoch(y + 1, 1, 1) == days_from_epoch(y, 12, 31) + 1,
{
    lemma_leap_step(y);
}

/// A year has 366 days when its number is divisible by 4 but not by 100,
/// or by 400, and 365 days otherwise; its February has 29 days exactly then.
pub proof fn lemma_year_length(y: int)
    ensures
        days_from_epoch(y + 1, 1, 1) - days_from_epoch(y, 1, 1) == if y % 4 == 0 && (y % 100 != 0
            || y % 400 == 0) {
            366int
        } else {
            365int
        },
        days_in_month(y, 2) == if y % 4 == 0 && (y % 100 != 0 || y % 400 == 0) {
            29int
        } else {
            28int
        },
{
    lemma_leap_step(y);
}

proof fn lemma_leap_step(y: int)
    ensures
        leap_years_through(y) - leap_years_through(y - 1) == if is_leap_year(y) {
            1int
        } else {
            0int
        },
{
    assert((y / 4 - (y - 1) / 4) == if y % 4 == 0 {
        1int
    } else {
        0int
    });
    assert((y / 100 - (y - 1) / 100) == if y % 100 == 0 {
        1int
    } else {
        0int
    });
    assert((y / 400 - (y - 1) / 400) == if y % 400 == 0 {
        1int
    } else {
        0int
    });
    if y % 400 == 0 {
        assert(y % 100 == 0);
        assert(y % 4 == 0);
    } else if y % 100 == 0 {
        assert(y % 4 == 0);
    }
}

/// Whether `chrono` can hold both the date and the time of day.
pub open spec fn date_time_exists(year: i32, month: u32, day: u32, hour: u32, minute: u32, second: u32, nano: u32) -> bool {
    date_exists(year as int, month as int, day as int) && time_exists(hour as int, minute as int, second as int, nano as int)
}

/// The Unix timestamp of a date and a time of day in UTC, through `chrono`:
/// `NaiveDate::from_ymd_opt`, `NaiveTime::from_hms_nano_opt`,
/// `NaiveDateTime::new`, `NaiveDateTime::and_utc` and
/// `DateTime::<Utc>::timestamp`.
///
/// Trusted: `None` exactly when `chrono` refuses the date or the time (out
/// of its year range, a day that its month lacks, or a time of day beyond
/// 23:59:59 other than a leap second), and otherwise the whole seconds since
/// the Unix epoch, as chrono documents them; the nanoseconds do not count.
#[verifier::external_body]
pub(crate) fn utc_timestamp(year: i32, month: u32, day: u32, hour: u32, minute: u32, second: u32, nano: u32) -> (r: Option<i64>)
    ensures
        r is Some <==> date_time_exists(year, month, day, hour, minute, second, nano),
        r matches Some(t) ==> t == unix_seconds(year as int, month as int, day as int, hour as int, minute as int, second as int),
{
    let date = chrono::NaiveDate::from_ymd_opt(year, month, day)?;
    let time = chrono::NaiveTime::from_hms_nano_opt(hour, minute, second, nano)?;
    Some(chrono::NaiveDateTime::new(date, time).and_utc().timestamp())
}

} // verus!
