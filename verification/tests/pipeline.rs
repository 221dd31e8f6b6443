use skycoords::fixed::{FULL_TURN, QUARTER_TURN};
use skycoords::horizon::{horizon_to_equatorial, HorizonError};
use skycoords::julian::julian_day;
use skycoords::sidereal::{gmst, lst};

#[test]
fn julian_day_of_the_epoch() {
    // 2000-01-01 12:00:00 UTC is the Julian Day 2451545.0 exactly.
    assert_eq!(julian_day(2000, 1, 1, 12, 0, 0), 2451545 * 86400);
    assert_eq!(julian_day(2000, 1, 1, 12, 0, 0), 211_813_488_000);
}

#[test]
fn julian_day_of_a_modern_date() {
    assert_eq!(julian_day(2024, 6, 21, 18, 0, 0), 212_585_752_800);
}

#[test]
fn julian_day_year_steps_by_365_or_366_days() {
    // A year step spanning a leap February advances by 366 days, any
    // other by 365 (so 365.25 on average).
    let d1 = julian_day(2024, 6, 21, 18, 0, 0) - julian_day(2023, 6, 21, 18, 0, 0);
    assert_eq!(d1, 366 * 86400);
    let d2 = julian_day(2025, 6, 21, 18, 0, 0) - julian_day(2024, 6, 21, 18, 0, 0);
    assert_eq!(d2, 365 * 86400);
    // Century rules: 1900 was no leap year, 2000 was.
    let d3 = julian_day(1900, 6, 1, 0, 0, 0) - julian_day(1899, 6, 1, 0, 0, 0);
    assert_eq!(d3, 365 * 86400);
    let d4 = julian_day(2000, 6, 1, 0, 0, 0) - julian_day(1999, 6, 1, 0, 0, 0);
    assert_eq!(d4, 366 * 86400);
}

#[test]
fn julian_day_accepts_out_of_calendar_fields() {
    // Month 13 and day 40 are not rejected: they flow through the
    // arithmetic to a deterministic day count.
    assert_eq!(julian_day(2024, 13, 40, 0, 0, 0), 212_605_819_200);
    assert_eq!(
        julian_day(2024, 13, 40, 0, 0, 0),
        julian_day(2024, 13, 40, 0, 0, 0)
    );
}

#[test]
fn gmst_at_j2000_matches_the_polynomial_constant() {
    // At J2000.0 every time-dependent term vanishes, so GMST is the
    // polynomial's constant 280.46061837 degrees: 280460618.37
    // micro-degrees, floored — within a millionth of a degree.
    assert_eq!(gmst(211_813_488_000), 280_460_618);
}

#[test]
fn gmst_is_normalized_for_any_epoch() {
    // Far in the past the polynomial's raw value is hugely negative;
    // the Euclidean reduction still lands in [0, 360) degrees.
    let ancient = julian_day(-1000, 1, 1, 0, 0, 0);
    assert_eq!(ancient, 117_142_632_000);
    let g = gmst(ancient);
    assert_eq!(g, 99_885_894);
    assert!(0 <= g && g < FULL_TURN);
    let modern = gmst(julian_day(2024, 6, 21, 18, 0, 0));
    assert_eq!(modern, 180_423_212);
    assert!(0 <= modern && modern < FULL_TURN);
}

#[test]
fn lst_is_normalized() {
    // A westward longitude beyond the current GMST wraps, never negative.
    assert_eq!(lst(10_000_000, -74_000_000), 296_000_000);
    assert_eq!(lst(180_423_212, -74_000_000), 106_423_212);
    let r = lst(0, -720_000_000);
    assert!(0 <= r && r < FULL_TURN);
    assert_eq!(r, 0);
}

#[test]
fn conversion_of_a_southern_observation() {
    // Latitude 40, longitude -74, altitude 45, azimuth 180 (due south),
    // at 2024-06-21 18:00:00 UTC. Due south means the hour angle is
    // zero, so the right ascension equals the local sidereal time.
    let r = horizon_to_equatorial(
        40_000_000,
        -74_000_000,
        45_000_000,
        180_000_000,
        2024,
        6,
        21,
        18,
        0,
        0,
    )
    .unwrap();
    assert_eq!(r, (106_423_212, -4_909_086));
    assert!(0 <= r.0 && r.0 < FULL_TURN);
    assert!(-QUARTER_TURN <= r.1 && r.1 <= QUARTER_TURN);
    // Pure function: a second call is bit-identical.
    let again = horizon_to_equatorial(
        40_000_000,
        -74_000_000,
        45_000_000,
        180_000_000,
        2024,
        6,
        21,
        18,
        0,
        0,
    )
    .unwrap();
    assert_eq!(r, again);
}

#[test]
fn zenith_declination_equals_latitude() {
    // Looking straight up, the declination is the observer's latitude,
    // independent of azimuth and time; away from the poles the sine has
    // no flat spots at this ratio scale, so the equality is exact.
    let r = horizon_to_equatorial(
        40_000_000,
        -74_000_000,
        90_000_000,
        123_456,
        2024,
        6,
        21,
        18,
        0,
        0,
    )
    .unwrap();
    assert_eq!(r.1, 40_000_000);
    // The same at a southern latitude, azimuth and date notwithstanding.
    let s = horizon_to_equatorial(
        -30_000_000,
        10_000_000,
        90_000_000,
        77_000_000,
        2024,
        6,
        21,
        18,
        0,
        0,
    )
    .unwrap();
    assert_eq!(s.1, -30_000_000);
}

#[test]
fn conversion_at_the_pole_reports_degenerate_geometry() {
    // Latitude 90: cos lat is exactly zero, the hour-angle denominator
    // vanishes, and the conversion fails explicitly instead of
    // propagating a meaningless value.
    let r = horizon_to_equatorial(90_000_000, 0, 45_000_000, 0, 2024, 6, 21, 18, 0, 0);
    assert_eq!(r, Err(HorizonError::DegenerateGeometry));
}

#[test]
fn results_stay_in_range_across_many_inputs() {
    // Normalization and declination range hold on a sweep of inputs,
    // including negative years and unusual azimuths.
    let mut az: i64 = -720_000_000;
    while az <= 720_000_000 {
        let r = horizon_to_equatorial(50_000_000, 100_000_000, 20_000_000, az, -44, 2, 29, 23, 59, 59);
        let (ra, dec) = r.unwrap();
        assert!(0 <= ra && ra < FULL_TURN);
        assert!(-QUARTER_TURN <= dec && dec <= QUARTER_TURN);
        az += 90_000_000;
    }
}
