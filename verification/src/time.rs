//! The civil-time model.
//!
//! A [`Timestamp`] is a local civil time at one-second resolution: the
//! number of seconds since the local midnight that opened 1970-01-01.
//! Every civil day is exactly `SECONDS_PER_DAY` seconds long, so all
//! calendar arithmetic (day numbers, weekdays, day and week bounds) is
//! plain integer arithmetic. Converting between civil timestamps and real
//! wall-clock instants — time zones, daylight saving — is the host
//! program's concern, outside this library.

use vstd::prelude::*;
use vstd::arithmetic::div_mod::{
    lemma_fundamental_div_mod, lemma_fundamental_div_mod_converse,
    lemma_hoist_over_denominator, lemma_mod_division_less_than_divisor,
    lemma_mod_multiples_vanish,
};

verus! {

/// A local civil time: seconds since the local midnight opening 1970-01-01.
pub type Timestamp = i64;

/// Seconds in one civil day.
pub const SECONDS_PER_DAY: i64 = 86400;

/// Largest magnitude a timestamp may have: about 126 thousand years away
/// from 1970, far beyond any date the engine meets, and small enough that
/// all interval and overtime arithmetic stays well within `i64`.
pub const MAX_TIMESTAMP: i64 = 4_000_000_000_000;

/// Largest magnitude a civil day number may have. Covers every day number
/// a valid timestamp can fall on (`MAX_TIMESTAMP / SECONDS_PER_DAY` is
/// about 46.3 million), with room to spare for week arithmetic.
pub const MAX_DAY: i64 = 48_000_000;

/// A timestamp the engine accepts.
pub open spec fn valid_ts(t: int) -> bool {
    -MAX_TIMESTAMP <= t <= MAX_TIMESTAMP
}

/// A civil day number the engine accepts.
pub open spec fn valid_day(d: int) -> bool {
    -MAX_DAY <= d <= MAX_DAY
}

/// The civil day number of the day holding `t` (day 0 opened 1970-01-01).
/// Ghost division is Euclidean, so this rounds toward minus infinity.
pub open spec fn day_of(t: int) -> int {
    t / (SECONDS_PER_DAY as int)
}

/// The timestamp of the midnight opening civil day `d`.
pub open spec fn day_start(d: int) -> int {
    d * (SECONDS_PER_DAY as int)
}

/// The weekday of civil day `d`: 0 is Monday through 6 is Sunday.
/// Day 0, 1970-01-01, was a Thursday, hence the offset of 3.
pub open spec fn weekday_of_day(d: int) -> int {
    (d + 3) % 7
}

/// Whether civil day `d` is a Saturday or a Sunday.
pub open spec fn is_weekend_day(d: int) -> bool {
    weekday_of_day(d) >= 5
}

/// The civil day number holding timestamp `t`.
pub fn day_number(t: Timestamp) -> (d: i64)
    requires
        valid_ts(t as int),
    ensures
        d == day_of(t as int),
        valid_day(d as int),
        day_start(d as int) <= t < day_start(d as int + 1),
{
    proof {
        lemma_fundamental_div_mod(t as int, SECONDS_PER_DAY as int);
        lemma_mod_division_less_than_divisor(t as int, SECONDS_PER_DAY as int);
    }
    if t >= 0 {
        t / SECONDS_PER_DAY
    } else {
        let neg: i64 = -t;
        let q: i64 = (neg + SECONDS_PER_DAY - 1) / SECONDS_PER_DAY;
        proof {
            let n = neg as int;
            lemma_fundamental_div_mod(n + 86399, 86400);
            lemma_mod_division_less_than_divisor(n + 86399, 86400);
            let r = (n + 86399) % 86400;
            assert(t == (-q) * 86400 + (86399 - r)) by {
                assert(n + 86399 == 86400 * ((n + 86399) / 86400) + r);
            };
            lemma_fundamental_div_mod_converse(t as int, 86400, -q as int, 86399 - r);
        }
        -q
    }
}

/// The weekday of civil day `d`: 0 is Monday through 6 is Sunday.
pub fn weekday_of(d: i64) -> (w: i64)
    requires
        valid_day(d as int),
    ensures
        w == weekday_of_day(d as int),
        0 <= w < 7,
{
    let shifted: i64 = d + 3 + 70_000_000;
    let w: i64 = shifted % 7;
    proof {
        lemma_mod_multiples_vanish(10_000_000, d + 3, 7);
        lemma_mod_division_less_than_divisor(shifted as int, 7);
        lemma_fundamental_div_mod(shifted as int, 7);
    }
    w
}

/// The civil day number of the proleptic Gregorian date `year-month-day`,
/// with day 0 at 1970-01-01. This closed formula defines the library's
/// calendar: years shifted to start in March, so leap days fall at the end
/// of the shifted year, with the 400-year Gregorian cycle of 146097 days.
pub open spec fn days_from_civil(year: int, month: int, day: int) -> int {
    let y = if month <= 2 { year - 1 } else { year };
    let era = y / 400;
    let yoe = y - era * 400;
    let mp = (month + 9) % 12;
    let doy = (153 * mp + 2) / 5 + day - 1;
    let doe = yoe * 365 + yoe / 4 - yoe / 100 + doy;
    era * 146097 + doe - 719468
}

/// The civil day number of the date `year-month-day`.
pub fn civil_day_number(year: i64, month: i64, day: i64) -> (d: i64)
    requires
        -100_000 <= year <= 100_000,
        1 <= month <= 12,
        1 <= day <= 31,
    ensures
        d == days_from_civil(year as int, month as int, day as int),
        valid_day(d as int),
{
    let y: i64 = if month <= 2 { year - 1 } else { year };
    let era: i64 = (y + 400_000) / 400 - 1_000;
    proof {
        lemma_hoist_over_denominator(y as int, 1_000, 400nat);
        lemma_fundamental_div_mod(y as int, 400);
        lemma_mod_division_less_than_divisor(y as int, 400);
    }
    let yoe: i64 = y - era * 400;
    let mp: i64 = (month + 9) % 12;
    proof {
        lemma_fundamental_div_mod(month as int + 9, 12);
        lemma_mod_division_less_than_divisor(month as int + 9, 12);
    }
    let doy: i64 = (153 * mp + 2) / 5 + day - 1;
    let doe: i64 = yoe * 365 + yoe / 4 - yoe / 100 + doy;
    era * 146097 + doe - 719468
}

/// The civil timestamp of `year-month-day hour:minute:second` local time.
pub open spec fn civil_time(
    year: int,
    month: int,
    day: int,
    hour: int,
    minute: int,
    second: int,
) -> int {
    days_from_civil(year, month, day) * (SECONDS_PER_DAY as int) + hour * 3600 + minute * 60
        + second
}

/// Builds the timestamp of `year-month-day hour:minute:second` local time.
pub fn timestamp_from_ymd_hms(
    year: i64,
    month: i64,
    day: i64,
    hour: i64,
    minute: i64,
    second: i64,
) -> (t: Timestamp)
    requires
        -100_000 <= year <= 100_000,
        1 <= month <= 12,
        1 <= day <= 31,
        0 <= hour < 24,
        0 <= minute < 60,
        0 <= second < 60,
    ensures
        t == civil_time(
            year as int,
            month as int,
            day as int,
            hour as int,
            minute as int,
            second as int,
        ),
        valid_ts(t as int),
{
    let d: i64 = civil_day_number(year, month, day);
    d * SECONDS_PER_DAY + hour * 3600 + minute * 60 + second
}

/// The whole-hours part of a duration of `total` seconds, rounded
/// toward zero.
pub open spec fn duration_hours(total: int) -> int {
    if total >= 0 {
        total / 3600
    } else {
        -((-total) / 3600)
    }
}

/// The minutes part (past the whole hours) of a duration of `total`
/// seconds, carrying the sign of `total`.
pub open spec fn duration_minutes(total: int) -> int {
    if total >= 0 {
        (total % 3600) / 60
    } else {
        -(((-total) % 3600) / 60)
    }
}

/// The seconds part (past the whole minutes) of a duration of `total`
/// seconds, carrying the sign of `total`.
pub open spec fn duration_seconds(total: int) -> int {
    if total >= 0 {
        (total % 3600) % 60
    } else {
        -(((-total) % 3600) % 60)
    }
}

/// Splits a signed duration in seconds into (hours, minutes, seconds),
/// all three carrying the sign of the duration.
pub fn split_duration(total: i64) -> (r: (i64, i64, i64))
    requires
        -8_000_000_000_000 <= total <= 8_000_000_000_000,
    ensures
        r.0 == duration_hours(total as int),
        r.1 == duration_minutes(total as int),
        r.2 == duration_seconds(total as int),
        total == r.0 * 3600 + r.1 * 60 + r.2,
        -60 < r.1 < 60,
        -60 < r.2 < 60,
{
    let mag: i64 = if total >= 0 {
        total
    } else {
        -total
    };
    let h: i64 = mag / 3600;
    let rem: i64 = mag % 3600;
    let m: i64 = rem / 60;
    let s: i64 = rem % 60;
    proof {
        lemma_fundamental_div_mod(mag as int, 3600);
        lemma_mod_division_less_than_divisor(mag as int, 3600);
        lemma_fundamental_div_mod(rem as int, 60);
        lemma_mod_division_less_than_divisor(rem as int, 60);
    }
    if total >= 0 {
        (h, m, s)
    } else {
        (-h, -m, -s)
    }
}

} // verus!
