//! Proleptic-Gregorian calendar arithmetic.
//!
//! Manifest validity times arrive as GeneralizedTime fields, a civil date and
//! time of day in UTC. This module defines what such a date means in seconds
//! since the Unix epoch and computes that value without overflow.

use vstd::prelude::*;

verus! {

/// Leap years of the proleptic Gregorian calendar.
pub open spec fn is_leap_year(y: int) -> bool {
    y % 4 == 0 && (y % 100 != 0 || y % 400 == 0)
}

/// Days in the given year.
pub open spec fn days_in_year(y: int) -> int {
    if is_leap_year(y) {
        366
    } else {
        365
    }
}

/// Days in month `m` (1 to 12) of year `y`.
pub open spec fn days_in_month(y: int, m: int) -> int {
    if m == 2 {
        if is_leap_year(y) {
            29
        } else {
            28
        }
    } else if m == 4 || m == 6 || m == 9 || m == 11 {
        30
    } else {
        31
    }
}

/// Days from the start of year 0 to the start of year `y` (for `y >= 0`).
pub open spec fn days_before_year(y: int) -> int
    decreases y,
{
    if y <= 0 {
        0
    } else {
        days_before_year(y - 1) + days_in_year(y - 1)
    }
}

/// Days from the start of year `y` to the start of its month `m`.
pub open spec fn days_before_month(y: int, m: int) -> int
    decreases m,
{
    if m <= 1 {
        0
    } else {
        days_before_month(y, m - 1) + days_in_month(y, m - 1)
    }
}

/// Days from the start of year 0 to the civil date `y-m-d`.
pub open spec fn days_from_year0(y: int, m: int, d: int) -> int {
    days_before_year(y) + days_before_month(y, m) + (d - 1)
}

/// A civil date and time of day that the calendar admits, within the
/// four-digit years a GeneralizedTime can carry.
pub open spec fn valid_civil(y: int, m: int, d: int, h: int, mi: int, s: int) -> bool {
    &&& 0 <= y <= 9999
    &&& 1 <= m <= 12
    &&& 1 <= d <= days_in_month(y, m)
    &&& 0 <= h < 24
    &&& 0 <= mi < 60
    &&& 0 <= s < 60
}

/// Seconds from the Unix epoch (1970-01-01 00:00:00 UTC) to the given civil
/// date and time of day, negative for earlier instants.
pub open spec fn civil_to_unix(y: int, m: int, d: int, h: int, mi: int, s: int) -> int {
    (days_from_year0(y, m, d) - days_from_year0(1970, 1, 1)) * 86400 + h * 3600 + mi * 60 + s
}

/// `days_before_year` grows by at most 366 a year.
proof fn lemma_days_before_year_bound(y: int)
    requires
        y >= 0,
    ensures
        365 * y <= days_before_year(y) <= 366 * y,
    decreases y,
{
    if y > 0 {
        lemma_days_before_year_bound(y - 1);
    }
}

/// `days_before_month` grows by at most 31 a month.
proof fn lemma_days_before_month_bound(y: int, m: int)
    requires
        1 <= m <= 13,
    ensures
        0 <= days_before_month(y, m) <= 31 * (m - 1),
    decreases m,
{
    if m > 1 {
        lemma_days_before_month_bound(y, m - 1);
    }
}

/// Days from the start of year 0 to the start of year `y`, computed by
/// walking the years.
fn days_before_year_exec(y: u16) -> (r: u32)
    requires
        y <= 9999,
    ensures
        r == days_before_year(y as int),
        r <= 366 * 9999,
{
    let mut acc: u32 = 0;
    let mut i: u16 = 0;
    while i < y
        invariant
            0 <= i <= y <= 9999,
            acc == days_before_year(i as int),
            acc <= 366 * (i as int),
        decreases y - i,
    {
        proof {
            lemma_days_before_year_bound(i as int);
        }
        let leap = (i % 4 == 0 && (i % 100 != 0 || i % 400 == 0));
        if leap {
            acc += 366;
        } else {
            acc += 365;
        }
        i += 1;
    }
    acc
}

/// Days in month `m` of year `y`, as executable code.
pub fn days_in_month_exec(y: u16, m: u8) -> (r: u8)
    requires
        1 <= m <= 12,
    ensures
        r == days_in_month(y as int, m as int),
{
    if m == 2 {
        if y % 4 == 0 && (y % 100 != 0 || y % 400 == 0) {
            29
        } else {
            28
        }
    } else if m == 4 || m == 6 || m == 9 || m == 11 {
        30
    } else {
        31
    }
}

/// Days from the start of year `y` to the start of its month `m`.
fn days_before_month_exec(y: u16, m: u8) -> (r: u32)
    requires
        1 <= m <= 12,
    ensures
        r == days_before_month(y as int, m as int),
        r <= 372,
{
    proof {
        lemma_days_before_month_bound(y as int, m as int);
    }
    let mut acc: u32 = 0;
    let mut i: u8 = 1;
    while i < m
        invariant
            1 <= i <= m <= 12,
            acc == days_before_month(y as int, i as int),
            acc <= 31 * (i as int - 1),
        decreases m - i,
    {
        proof {
            lemma_days_before_month_bound(y as int, (i + 1) as int);
            lemma_days_before_month_bound(y as int, i as int);
        }
        acc = acc + days_in_month_exec(y, i) as u32;
        i += 1;
    }
    acc
}

/// Seconds since the Unix epoch of the given valid civil date and time.
pub fn civil_to_unix_exec(y: u16, m: u8, d: u8, h: u8, mi: u8, s: u8) -> (r: i64)
    requires
        valid_civil(y as int, m as int, d as int, h as int, mi as int, s as int),
    ensures
        r == civil_to_unix(y as int, m as int, d as int, h as int, mi as int, s as int),
{
    proof {
        lemma_days_before_year_bound(y as int);
        lemma_days_before_year_bound(1970);
        lemma_days_before_month_bound(y as int, m as int);
        lemma_days_before_month_bound(1970, 1);
    }
    let days: i64 = days_before_year_exec(y) as i64 + days_before_month_exec(y, m) as i64 + (
    d as i64 - 1);
    let epoch_days: i64 = days_before_year_exec(1970) as i64;
    (days - epoch_days) * 86400 + (h as i64) * 3600 + (mi as i64) * 60 + (s as i64)
}

} // verus!
