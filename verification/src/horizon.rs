//! The conversion itself: altitude and azimuth, observed from a latitude
//! and longitude at a UTC instant, to right ascension and declination.
//!
//! The pipeline follows the classical derivation. Local Sidereal Time
//! comes from the Julian Day and the longitude; the declination from
//! `sin dec = sin alt sin lat + cos alt cos lat cos az` (the sine is
//! clamped into the arcsine's domain before inverting, so rounding can
//! never push it outside); the hour angle from the two-argument
//! arctangent of `-sin az cos alt / cos dec` and
//! `(sin alt - sin lat sin dec) / (cos dec cos lat)`; and the right
//! ascension as sidereal time minus hour angle, normalized.
//!
//! Where the classical formulas divide by zero (a pole, or declination at
//! a quarter turn), this conversion returns an explicit error instead of
//! letting a meaningless value propagate: the degenerate geometry is
//! detected exactly when the fixed-point product `cos dec cos lat`
//! underflows to zero.

use vstd::prelude::*;
use crate::fixed::{SIN_SCALE, FULL_TURN, QUARTER_TURN, smul, sdiv, spec_clamp_unit};
use crate::trig::{
    spec_sin, spec_cos, spec_asin, spec_atan2, is_asin, spec_sin_half, asin_search,
    is_asin_unit,
};
use crate::julian::spec_julian_day_s;
use crate::sidereal::{spec_gmst, spec_lst};

verus! {

/// The one failure of the conversion: the geometry is degenerate (the
/// observer at a pole, or the object at a celestial pole), so the hour
/// angle's denominator `cos dec cos lat` vanishes at fixed-point scale.
#[derive(Debug, Clone, Copy, PartialEq, Eq, Structural)]
pub enum HorizonError {
    DegenerateGeometry,
}

/// The sine of the declination before clamping and inversion:
/// `sin alt sin lat + cos alt cos lat cos az`, clamped into the arcsine's
/// domain `[-SIN_SCALE, SIN_SCALE]`.
pub open spec fn spec_sin_dec(latitude: int, altitude: int, azimuth: int) -> int {
    spec_clamp_unit(
        smul(spec_sin(altitude), spec_sin(latitude)) + smul(
            smul(spec_cos(altitude), spec_cos(latitude)),
            spec_cos(azimuth),
        ),
    )
}

/// The whole conversion at specification level: `None` exactly when the
/// geometry is degenerate, otherwise the pair (right ascension,
/// declination) in micro-degrees.
pub open spec fn spec_horizon(
    latitude: int,
    longitude: int,
    altitude: int,
    azimuth: int,
    year: int,
    month: int,
    day: int,
    hour: int,
    minute: int,
    second: int,
) -> Option<(int, int)> {
    let dec = spec_asin(spec_sin_dec(latitude, altitude, azimuth));
    let cos_prod = smul(spec_cos(dec), spec_cos(latitude));
    if cos_prod == 0 {
        None
    } else {
        let lst = spec_lst(
            spec_gmst(spec_julian_day_s(year, month, day, hour, minute, second)),
            longitude,
        );
        let yv = sdiv(smul(-spec_sin(azimuth), spec_cos(altitude)), spec_cos(dec));
        let xv = sdiv(spec_sin(altitude) - smul(spec_sin(latitude), spec_sin(dec)), cos_prod);
        let lha = spec_atan2(yv, xv);
        Some((((lst - lha) % (FULL_TURN as int)), dec))
    }
}

/// Converts horizontal coordinates (altitude, azimuth) seen from
/// (latitude, longitude) at a UTC timestamp into equatorial coordinates
/// (right ascension, declination), all angles in micro-degrees.
///
/// The result is exactly `spec_horizon` of the inputs: `Err` exactly when
/// that is `None` (the degenerate geometry), otherwise the right ascension
/// lies in `[0, FULL_TURN)` and the declination within a quarter turn of
/// zero, and the declination is the canonical arcsine of the declination's
/// sine. Out-of-range calendar fields are accepted and flow through, as in
/// the classical algorithm.
pub fn horizon_to_equatorial(
    latitude: i64,
    longitude: i64,
    altitude: i64,
    azimuth: i64,
    year: i32,
    month: i32,
    day: i32,
    hour: i32,
    minute: i32,
    second: i32,
) -> (result: Result<(i64, i64), HorizonError>)
    ensures
        ({
            let s = spec_horizon(
                latitude as int,
                longitude as int,
                altitude as int,
                azimuth as int,
                year as int,
                month as int,
                day as int,
                hour as int,
                minute as int,
                second as int,
            );
            match result {
                Ok(pair) => {
                    &&& s == Some((pair.0 as int, pair.1 as int))
                    &&& 0 <= pair.0 < FULL_TURN
                    &&& -QUARTER_TURN <= pair.1 <= QUARTER_TURN
                    &&& is_asin(
                        spec_sin_dec(latitude as int, altitude as int, azimuth as int),
                        pair.1 as int,
                    )
                },
                Err(e) => {
                    &&& s is None
                    &&& e == HorizonError::DegenerateGeometry
                },
            }
        }),
{
    let sin_lat: i64 = crate::trig::sin_fp(latitude);
    let cos_lat: i64 = crate::trig::cos_fp(latitude);
    let sin_alt: i64 = crate::trig::sin_fp(altitude);
    let cos_alt: i64 = crate::trig::cos_fp(altitude);
    let sin_az: i64 = crate::trig::sin_fp(azimuth);
    let cos_az: i64 = crate::trig::cos_fp(azimuth);

    let jd_s: i64 = crate::julian::julian_day(year, month, day, hour, minute, second);
    let g: i64 = crate::sidereal::gmst(jd_s);
    let lst_v: i64 = crate::sidereal::lst(g, longitude);

    let term_sin: i64 = crate::fixed::s_mul(sin_alt, sin_lat);
    let term_cos: i64 = crate::fixed::s_mul(crate::fixed::s_mul(cos_alt, cos_lat), cos_az);
    let sin_dec: i64 = crate::fixed::clamp_unit(term_sin + term_cos);
    let dec: i64 = crate::trig::asin_fp(sin_dec);
    let cos_dec: i64 = crate::trig::cos_fp(dec);
    let cos_prod: i64 = crate::fixed::s_mul(cos_dec, cos_lat);
    if cos_prod == 0 {
        return Err(HorizonError::DegenerateGeometry);
    }
    proof {
        if cos_dec as int == 0 {
            assert(0 * (cos_lat as int) == 0) by (nonlinear_arith);
            vstd::arithmetic::div_mod::lemma_div_of0(1_000_000_000int);
            assert(smul(0, cos_lat as int) == 0);
            assert(false);
        }
    }
    let neg_sin_az: i64 = -sin_az;
    let y_num: i64 = crate::fixed::s_mul(neg_sin_az, cos_alt);
    let yv: i64 = crate::fixed::s_div(y_num, cos_dec);
    let sin_dec_again: i64 = crate::trig::sin_fp(dec);
    let x_num: i64 = sin_alt - crate::fixed::s_mul(sin_lat, sin_dec_again);
    let xv: i64 = crate::fixed::s_div(x_num, cos_prod);
    let lha: i64 = crate::trig::atan2_fp(yv, xv);
    let ra: i64 = crate::fixed::euclid_mod_i64(lst_v - lha, FULL_TURN);
    Ok((ra, dec))
}

/// Zenith law: observed straight up (altitude a full quarter turn), the
/// declination of the conversion depends on the observer's latitude alone
/// — independent of azimuth and of time. It is the earliest angle with
/// the latitude's sine, never beyond the latitude; at the ratio scale of
/// a thousandth of a micro-degree the sine flattens only close to a pole,
/// so away from the poles the two coincide (exactly 40 degrees at
/// latitude 40, say), while at latitude 89.999999 degrees the declination
/// falls a few micro-degrees short.
pub proof fn lemma_zenith_declination(latitude: int, azimuth: int)
    requires
        -QUARTER_TURN <= latitude <= QUARTER_TURN,
    ensures
        ({
            let dec = spec_asin(spec_sin_dec(latitude, QUARTER_TURN as int, azimuth));
            &&& spec_sin(dec) == spec_sin(latitude)
            &&& if latitude >= 0 {
                0 <= dec <= latitude
            } else {
                latitude <= dec <= 0
            }
        }),
{
    crate::trig::lemma_sin_half_quarter();
    crate::trig::lemma_sin_first_half(QUARTER_TURN as int);
    assert(spec_sin(QUARTER_TURN as int) == SIN_SCALE);
    vstd::arithmetic::div_mod::lemma_small_mod(180_000_000nat, 360_000_000nat);
    assert(spec_cos(QUARTER_TURN as int) == -spec_sin_half(0));
    assert(spec_cos(QUARTER_TURN as int) == 0);
    crate::trig::lemma_sin_range(latitude);
    let sl = spec_sin(latitude);
    // The zenith collapses the declination's sine to the latitude's sine.
    vstd::arithmetic::div_mod::lemma_div_multiples_vanish(sl, 1_000_000_000int);
    assert(smul(SIN_SCALE as int, sl) == sl);
    assert(0 * spec_cos(latitude) == 0) by (nonlinear_arith);
    vstd::arithmetic::div_mod::lemma_div_of0(1_000_000_000int);
    assert(smul(0, spec_cos(latitude)) == 0);
    assert(0 * spec_cos(azimuth) == 0) by (nonlinear_arith);
    assert(smul(smul(0, spec_cos(latitude)), spec_cos(azimuth)) == 0);
    assert(spec_sin_dec(latitude, QUARTER_TURN as int, azimuth) == spec_clamp_unit(sl + 0));
    assert(spec_sin_dec(latitude, QUARTER_TURN as int, azimuth) == sl);
    // Now relate the arcsine of the latitude's sine to the latitude.
    if latitude >= 0 {
        crate::trig::lemma_sin_first_half(latitude);
        lemma_asin_of_sin_quarter(latitude);
        let r = asin_search(spec_sin_half(latitude), 0);
        assert(spec_asin(sl) == r);
        crate::trig::lemma_sin_first_half(r);
    } else {
        crate::trig::lemma_sin_neg_quarter(latitude);
        let m = -latitude;
        assert(sl == -spec_sin_half(m));
        crate::trig::lemma_sin_half_range(m);
        if sl == 0 {
            assert(spec_sin_half(0) >= 0);
            assert(spec_asin(0) == asin_search(0, 0));
            lemma_asin_of_sin_quarter(0);
            assert(spec_asin(0) == 0);
            crate::trig::lemma_sin_first_half(0);
            assert(spec_sin(0) == spec_sin_half(0));
            crate::trig::lemma_sin_half_quarter();
        } else {
            assert(sl < 0);
            lemma_asin_of_sin_quarter(m);
            let r = asin_search(spec_sin_half(m), 0);
            assert(spec_asin(sl) == -r);
            assert(spec_sin_half(r) == spec_sin_half(m));
            if r == 0 {
                crate::trig::lemma_sin_half_quarter();
                assert(spec_sin_half(m) == 0);
                assert(false);
            }
            crate::trig::lemma_sin_neg_quarter(-r);
        }
    }
}

/// For a first-quarter angle, the arcsine search applied to its rational
/// sine lands at or before the angle, on an angle with the same sine.
proof fn lemma_asin_of_sin_quarter(x: int)
    requires
        0 <= x <= QUARTER_TURN,
    ensures
        ({
            let r = asin_search(spec_sin_half(x), 0);
            &&& 0 <= r <= x
            &&& spec_sin_half(r) == spec_sin_half(x)
            &&& is_asin_unit(spec_sin_half(x), r)
        }),
{
    crate::trig::lemma_sin_half_range(x);
    crate::trig::lemma_asin_search(spec_sin_half(x), 0);
    let r = asin_search(spec_sin_half(x), 0);
    if r > x {
        assert(spec_sin_half(x) < spec_sin_half(x));
        assert(false);
    }
    crate::trig::lemma_sin_half_mono(r, x);
}

} // verus!
