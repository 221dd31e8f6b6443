//! The Julian Day of a calendar timestamp, by the classical
//! Gregorian-calendar algorithm. The day count is held in seconds, so the
//! half-day offset and the time-of-day fraction are represented exactly:
//! `julian_day` returns the classical Julian Day multiplied by 86400.
//!
//! As in the classical algorithm, no input is rejected: an out-of-calendar
//! month or day propagates through the arithmetic to a deterministic (if
//! physically meaningless) day count.

use vstd::prelude::*;

verus! {

/// Seconds in one day.
pub const DAY_SECONDS: i64 = 86_400;

/// A bound on the magnitude of any Julian Day (in seconds) produced from
/// `i32` calendar fields; later stages rely on it to rule out overflow.
pub const JD_SECONDS_BOUND: i64 = 100_000_000_000_000_000;

/// The Julian Day, in seconds, of a calendar timestamp: 86400 times the
/// classical value `floor(365.25 (y + 4716)) + floor(30.6001 (m + 1))
/// + day + b - 1524.5 + (hour + minute/60 + second/3600)/24`, where January
/// and February count as months 13 and 14 of the previous year and `b` is
/// the Gregorian century correction. The rational coefficients make every
/// term an exact integer at this scale.
pub open spec fn spec_julian_day_s(
    year: int,
    month: int,
    day: int,
    hour: int,
    minute: int,
    second: int,
) -> int {
    let y = if month <= 2 {
        year - 1
    } else {
        year
    };
    let m = if month <= 2 {
        month + 12
    } else {
        month
    };
    let a = y / 100;
    let b = 2 - a + a / 4;
    let whole_days = (1461 * (y + 4716)) / 4 + (306001 * (m + 1)) / 10000 + day + b;
    86_400 * whole_days - 131_716_800 + 3600 * hour + 60 * minute + second
}

/// Computes the Julian Day of a UTC calendar timestamp, in seconds.
///
/// The result is exactly `spec_julian_day_s` for every `i32` input: no
/// rounding is involved, and out-of-calendar fields are accepted and flow
/// through the arithmetic unchanged, as the classical algorithm has it.
pub fn julian_day(year: i32, month: i32, day: i32, hour: i32, minute: i32, second: i32) -> (jd_s:
    i64)
    ensures
        jd_s == spec_julian_day_s(
            year as int,
            month as int,
            day as int,
            hour as int,
            minute as int,
            second as int,
        ),
        -JD_SECONDS_BOUND <= jd_s <= JD_SECONDS_BOUND,
{
    let y: i64 = if month <= 2 {
        (year as i64) - 1
    } else {
        year as i64
    };
    let m: i64 = if month <= 2 {
        (month as i64) + 12
    } else {
        month as i64
    };
    let a: i64 = crate::fixed::div_floor_i64(y, 100);
    proof {
        crate::fixed::lemma_div_shrinks(y as int, 100);
        crate::fixed::lemma_div_shrinks(a as int, 4);
    }
    let b: i64 = 2 - a + crate::fixed::div_floor_i64(a, 4);
    proof {
        crate::fixed::lemma_div_shrinks(1461 * (y as int + 4716), 4);
        crate::fixed::lemma_div_shrinks(306001 * (m as int + 1), 10000);
    }
    let whole_days: i64 = crate::fixed::div_floor_i64(1461 * (y + 4716), 4)
        + crate::fixed::div_floor_i64(306001 * (m + 1), 10000) + (day as i64) + b;
    86_400 * whole_days - 131_716_800 + 3600 * (hour as i64) + 60 * (minute as i64) + (second
        as i64)
}

/// Julian Day monotonicity in years: with the month, day and time of day
/// held fixed, stepping the year forward by one advances the Julian Day by
/// exactly 365 or 366 whole days (365.25 on average, as the calendar
/// corrections fall).
pub proof fn lemma_julian_day_year_step(
    year: int,
    month: int,
    day: int,
    hour: int,
    minute: int,
    second: int,
)
    ensures
        ({
            let step = spec_julian_day_s(year + 1, month, day, hour, minute, second)
                - spec_julian_day_s(year, month, day, hour, minute, second);
            step == 365 * DAY_SECONDS || step == 366 * DAY_SECONDS
        }),
{
    let y = if month <= 2 {
        year - 1
    } else {
        year
    };
    lemma_julian_whole_day_step(y);
}

/// The underlying fact on the shifted year: the whole-day part of the
/// Julian Day formula grows by 365 or 366 when the shifted year steps.
proof fn lemma_julian_whole_day_step(y: int)
    ensures
        ({
            let d0 = (1461 * (y + 4716)) / 4 + (2 - y / 100 + (y / 100) / 4);
            let d1 = (1461 * (y + 1 + 4716)) / 4 + (2 - (y + 1) / 100 + ((y + 1) / 100) / 4);
            d1 - d0 == 365 || d1 - d0 == 366
        }),
{
    let n = y + 4716;
    let q = (1461 * n) / 4;
    let r = (1461 * n) % 4;
    vstd::arithmetic::div_mod::lemma_fundamental_div_mod(1461 * n, 4);
    vstd::arithmetic::div_mod::lemma_mod_bound(1461 * n, 4);
    assert(1461 * (n + 1) == 4 * q + r + 1461) by (nonlinear_arith)
        requires
            1461 * n == 4 * q + r,
    ;
    if r == 3 {
        vstd::arithmetic::div_mod::lemma_fundamental_div_mod_converse(
            1461 * (n + 1),
            4,
            q + 366,
            0,
        );
        assert((1461 * (n + 1)) / 4 == q + 366);
    } else {
        vstd::arithmetic::div_mod::lemma_fundamental_div_mod_converse(
            1461 * (n + 1),
            4,
            q + 365,
            r + 1,
        );
        assert((1461 * (n + 1)) / 4 == q + 365);
    }
    let a0 = y / 100;
    let a1 = (y + 1) / 100;
    vstd::arithmetic::div_mod::lemma_fundamental_div_mod(y, 100);
    vstd::arithmetic::div_mod::lemma_mod_bound(y, 100);
    let rc = y % 100;
    if rc == 99 {
        vstd::arithmetic::div_mod::lemma_fundamental_div_mod_converse(y + 1, 100, a0 + 1, 0);
        assert(a1 == a0 + 1);
        // A century boundary: the 1461-cycle lands on remainder 3 there,
        // so the 366 above and the lost leap day cancel to 365, except
        // every fourth century.
        lemma_century_remainder(y, a0, q, r);
        vstd::arithmetic::div_mod::lemma_fundamental_div_mod(a0, 4);
        vstd::arithmetic::div_mod::lemma_mod_bound(a0, 4);
        let s = a0 % 4;
        if s == 3 {
            vstd::arithmetic::div_mod::lemma_fundamental_div_mod_converse(
                a0 + 1,
                4,
                a0 / 4 + 1,
                0,
            );
        } else {
            vstd::arithmetic::div_mod::lemma_fundamental_div_mod_converse(
                a0 + 1,
                4,
                a0 / 4,
                s + 1,
            );
        }
    } else {
        vstd::arithmetic::div_mod::lemma_fundamental_div_mod_converse(
            y + 1,
            100,
            a0,
            rc + 1,
        );
        assert(a1 == a0);
    }
}

/// At a century boundary (`y % 100 == 99`), the remainder of `1461 (y+4716)`
/// modulo 4 is 3, so the year step above a century boundary starts from 366.
proof fn lemma_century_remainder(y: int, a0: int, q: int, r: int)
    requires
        y % 100 == 99,
        a0 == y / 100,
        q == (1461 * (y + 4716)) / 4,
        r == (1461 * (y + 4716)) % 4,
    ensures
        r == 3,
{
    let n = y + 4716;
    vstd::arithmetic::div_mod::lemma_fundamental_div_mod(y, 100);
    assert(y == 100 * a0 + 99);
    assert(n == 100 * a0 + 4815);
    vstd::arithmetic::div_mod::lemma_fundamental_div_mod(1461 * n, 4);
    vstd::arithmetic::div_mod::lemma_mod_bound(1461 * n, 4);
    assert(1461 * n == 4 * q + r);
    assert(1461 * (100 * a0 + 4815) == 4 * (36525 * a0 + 1758678) + 3) by (nonlinear_arith);
    vstd::arithmetic::div_mod::lemma_fundamental_div_mod_converse(
        1461 * n,
        4,
        36525 * a0 + 1758678,
        3,
    );
}

} // verus!
