//! Greenwich Mean Sidereal Time from a Julian Day, by the standard IAU
//! polynomial, and Local Sidereal Time from it. Both are computed in
//! micro-degrees with flooring integer divisions (each rational
//! coefficient is folded into one integer ratio) and are normalized by
//! Euclidean remainder, so the results always lie in `[0, 360)` degrees.

use vstd::prelude::*;
use crate::fixed::FULL_TURN;
use crate::julian::JD_SECONDS_BOUND;

verus! {

/// The Julian Day 2451545.0 (the J2000.0 epoch), in seconds.
pub const J2000_S: i64 = 211_813_488_000;

/// Seconds in a Julian century of 36525 days.
pub const CENTURY_S: i64 = 3_155_760_000;

/// Greenwich Mean Sidereal Time, in micro-degrees in `[0, FULL_TURN)`,
/// of the Julian Day given in seconds. With `d` the seconds since J2000.0
/// and `T = d / CENTURY_S` the whole Julian centuries, this is the IAU
/// polynomial `280.46061837 + 360.98564736629 (d/86400) + 0.000387933 T^2
/// - T^3 / 38710000` degrees, each coefficient folded into an exact
/// integer ratio at micro-degree scale, reduced modulo a full turn.
pub open spec fn spec_gmst(jd_s: int) -> int {
    let d = jd_s - J2000_S;
    let lin = (d * 36_098_564_736_629) / 8_640_000_000;
    let sq = (387_933 * ((d * d) / (CENTURY_S as int))) / 3_155_760_000_000;
    let t1 = d / (CENTURY_S as int);
    let cb = (t1 * t1 * t1 * 100) / 3871;
    (280_460_618 + lin + sq - cb) % (FULL_TURN as int)
}

/// Computes Greenwich Mean Sidereal Time in micro-degrees; the result is
/// always normalized into `[0, FULL_TURN)`, also far before J2000.0.
pub fn gmst(jd_s: i64) -> (g: i64)
    requires
        -JD_SECONDS_BOUND <= jd_s <= JD_SECONDS_BOUND,
    ensures
        g as int == spec_gmst(jd_s as int),
        0 <= g < FULL_TURN,
{
    let d: i128 = (jd_s as i128) - (J2000_S as i128);
    let lin: i128 = crate::fixed::div_floor_i128(d * 36_098_564_736_629, 8_640_000_000);
    proof {
        crate::fixed::lemma_div_shrinks((d as int) * 36_098_564_736_629, 8_640_000_000);
        assert(0 <= (d as int) * (d as int) <= 10_100_000_000_000_000_000_000_000_000_000_000int)
            by (nonlinear_arith)
            requires
                -100_300_000_000_000_000int <= d as int <= 100_300_000_000_000_000int,
        ;
    }
    let dd: i128 = d * d;
    proof {
        vstd::arithmetic::div_mod::lemma_div_pos_is_pos(dd as int, CENTURY_S as int);
        vstd::arithmetic::div_mod::lemma_multiply_divide_le(
            dd as int,
            CENTURY_S as int,
            3_300_000_000_000_000_000_000_000int,
        );
    }
    let ddc: i128 = crate::fixed::div_floor_i128(dd, CENTURY_S as i128);
    let sq: i128 = crate::fixed::div_floor_i128(387_933 * ddc, 3_155_760_000_000);
    proof {
        crate::fixed::lemma_div_shrinks(387_933 * (ddc as int), 3_155_760_000_000);
        vstd::arithmetic::div_mod::lemma_div_is_ordered(
            d as int,
            3_155_760_000int * 32_000_000int,
            CENTURY_S as int,
        );
        vstd::arithmetic::div_mod::lemma_div_multiples_vanish(32_000_000int, CENTURY_S as int);
        vstd::arithmetic::div_mod::lemma_div_is_ordered(
            3_155_760_000int * -32_000_001int,
            d as int,
            CENTURY_S as int,
        );
        vstd::arithmetic::div_mod::lemma_div_multiples_vanish(-32_000_001int, CENTURY_S as int);
    }
    let t1: i128 = crate::fixed::div_floor_i128(d, CENTURY_S as i128);
    proof {
        assert(0 <= (t1 as int) * (t1 as int) <= 1_030_000_000_000_000int
            && -33_000_000_000_000_000_000_000int <= (t1 as int) * (t1 as int) * (t1 as int)
            <= 33_000_000_000_000_000_000_000int) by (nonlinear_arith)
            requires
                -32_000_001int <= t1 as int <= 32_000_000int,
        ;
    }
    let cb: i128 = crate::fixed::div_floor_i128(t1 * t1 * t1 * 100, 3871);
    proof {
        crate::fixed::lemma_div_shrinks((t1 as int) * (t1 as int) * (t1 as int) * 100, 3871);
    }
    let total: i128 = 280_460_618 + lin + sq - cb;
    let g: i128 = crate::fixed::euclid_mod_i128(total, FULL_TURN as i128);
    g as i64
}

/// Local Sidereal Time: Greenwich Mean Sidereal Time advanced by the
/// east-positive longitude, reduced modulo a full turn. (Scaling the two
/// terms down to hours and back by the factor fifteen cancels exactly, so
/// the sum itself is reduced.)
pub open spec fn spec_lst(gmst_udeg: int, longitude: int) -> int {
    (gmst_udeg + longitude) % (FULL_TURN as int)
}

/// Computes Local Sidereal Time in micro-degrees from a sidereal time and
/// a longitude; the result is always normalized into `[0, FULL_TURN)`.
pub fn lst(gmst_udeg: i64, longitude: i64) -> (r: i64)
    ensures
        r as int == spec_lst(gmst_udeg as int, longitude as int),
        0 <= r < FULL_TURN,
{
    let s: i128 = (gmst_udeg as i128) + (longitude as i128);
    let r: i128 = crate::fixed::euclid_mod_i128(s, FULL_TURN as i128);
    r as i64
}

} // verus!
