use skycoords::fixed::{FULL_TURN, QUARTER_TURN, SIN_SCALE};
use skycoords::form::{to_correct, Message, State};
use skycoords::parse::{parse_angle_micro, parse_i32};
use skycoords::trig::{asin_fp, atan2_fp, cos_fp, sin_fp};

#[test]
fn sine_anchors_are_exact() {
    // The rational sine is exact at 0, 30, 90, 150 and 180 degrees, and
    // the symmetry carries the anchors around the whole circle.
    assert_eq!(sin_fp(0), 0);
    assert_eq!(sin_fp(30_000_000), 500_000_000);
    assert_eq!(sin_fp(90_000_000), SIN_SCALE);
    assert_eq!(sin_fp(150_000_000), 500_000_000);
    assert_eq!(sin_fp(180_000_000), 0);
    assert_eq!(sin_fp(270_000_000), -SIN_SCALE);
    assert_eq!(sin_fp(-90_000_000), -SIN_SCALE);
    assert_eq!(sin_fp(360_000_000 + 30_000_000), 500_000_000);
    assert_eq!(cos_fp(0), SIN_SCALE);
    assert_eq!(cos_fp(60_000_000), 500_000_000);
    assert_eq!(cos_fp(90_000_000), 0);
    assert_eq!(cos_fp(-90_000_000), 0);
    assert_eq!(cos_fp(180_000_000), -SIN_SCALE);
}

#[test]
fn sine_stays_within_scale() {
    let mut x: i64 = -1_080_000_000;
    while x <= 1_080_000_000 {
        let s = sin_fp(x);
        let c = cos_fp(x);
        assert!(-SIN_SCALE <= s && s <= SIN_SCALE);
        assert!(-SIN_SCALE <= c && c <= SIN_SCALE);
        x += 17_345_678;
    }
}

#[test]
fn arcsine_inverts_the_exact_anchors() {
    assert_eq!(asin_fp(0), 0);
    assert_eq!(asin_fp(500_000_000), 30_000_000);
    assert_eq!(asin_fp(SIN_SCALE), 90_000_000);
    assert_eq!(asin_fp(-500_000_000), -30_000_000);
    assert_eq!(asin_fp(-SIN_SCALE), -90_000_000);
}

#[test]
fn arcsine_of_a_sine_lands_at_most_at_the_angle() {
    // The arcsine picks the earliest angle with the given sine; at this
    // ratio scale the sine has no flat spots away from the poles, so the
    // round trip is exact there.
    let x: i64 = 40_000_000;
    let r = asin_fp(sin_fp(x));
    assert_eq!(r, 40_000_000);
    assert_eq!(asin_fp(sin_fp(85_000_000)), 85_000_000);
    assert_eq!(sin_fp(r), sin_fp(x));
}

#[test]
fn arcsine_stays_within_a_quarter_turn() {
    let mut y: i64 = -SIN_SCALE;
    while y <= SIN_SCALE {
        let r = asin_fp(y);
        assert!(-QUARTER_TURN <= r && r <= QUARTER_TURN);
        y += 61_237_123;
    }
}

#[test]
fn arctangent_resolves_the_quadrants() {
    assert_eq!(atan2_fp(0, 5), 0);
    assert_eq!(atan2_fp(5, 0), 90_000_000);
    assert_eq!(atan2_fp(0, -5), 180_000_000);
    assert_eq!(atan2_fp(-5, 0), 270_000_000);
    assert_eq!(atan2_fp(1, 1), 45_000_000);
    let mut k: i64 = 0;
    while k < 16 {
        let y = 1_000 * (k - 8);
        let x = 777 * (11 - k);
        let r = atan2_fp(y, x);
        assert!(0 <= r && r < FULL_TURN);
        k += 1;
    }
}

#[test]
fn angle_parsing_follows_the_grammar_exactly() {
    assert_eq!(parse_angle_micro("40.5"), Some(40_500_000));
    assert_eq!(parse_angle_micro("-74"), Some(-74_000_000));
    assert_eq!(parse_angle_micro("+0.000001"), Some(1));
    assert_eq!(parse_angle_micro("-0.5"), Some(-500_000));
    assert_eq!(parse_angle_micro(".5"), Some(500_000));
    assert_eq!(parse_angle_micro("5."), Some(5_000_000));
    assert_eq!(parse_angle_micro("00042"), Some(42_000_000));
    // The seventh and later fraction digits are truncated.
    assert_eq!(parse_angle_micro("1.2345678"), Some(1_234_567));
    // The largest accepted whole part, and the first rejected one.
    assert_eq!(parse_angle_micro("999999999999"), Some(999_999_999_999_000_000));
    assert_eq!(parse_angle_micro("1000000000000"), None);
    assert_eq!(parse_angle_micro(""), None);
    assert_eq!(parse_angle_micro("."), None);
    assert_eq!(parse_angle_micro("-"), None);
    assert_eq!(parse_angle_micro("abc"), None);
    assert_eq!(parse_angle_micro("12a"), None);
    assert_eq!(parse_angle_micro("1.2.3"), None);
}

#[test]
fn whole_number_parsing_follows_the_range_of_i32() {
    assert_eq!(parse_i32("2024"), Some(2024));
    assert_eq!(parse_i32("+30"), Some(30));
    assert_eq!(parse_i32("-17"), Some(-17));
    assert_eq!(parse_i32("2147483647"), Some(2147483647));
    assert_eq!(parse_i32("2147483648"), None);
    assert_eq!(parse_i32("-2147483648"), Some(-2147483648));
    assert_eq!(parse_i32("-2147483649"), None);
    assert_eq!(parse_i32("99999999999999999999"), None);
    assert_eq!(parse_i32(""), None);
    assert_eq!(parse_i32("+"), None);
    assert_eq!(parse_i32("3x"), None);
    assert_eq!(parse_i32("1.5"), None);
}

#[test]
fn unparsed_fields_become_zero() {
    let r = to_correct(
        &String::from("40.5"),
        &String::from("nonsense"),
        &String::from(""),
        &String::from("180"),
        &String::from("2024"),
        &String::from("6.5"),
        &String::from("21"),
        &String::from("x"),
        &String::from("0"),
        &String::from("30"),
    );
    assert_eq!(r, (40_500_000, 0, 0, 180_000_000, 2024, 0, 21, 0, 0, 30));
}

#[test]
fn form_edits_touch_one_field_each() {
    let mut s = State::default();
    assert_eq!(s.ra, 0);
    assert_eq!(s.dec, 0);
    s.update(Message::LatitudeChanged(String::from("40")));
    s.update(Message::MonthChanged(String::from("6")));
    assert_eq!(s.latitude, String::from("40"));
    assert_eq!(s.month, String::from("6"));
    assert_eq!(s.longitude, String::from(""));
    s.update(Message::LatitudeChanged(String::from("41")));
    assert_eq!(s.latitude, String::from("41"));
    assert_eq!(s.month, String::from("6"));
}

#[test]
fn form_conversion_fills_the_result_pair() {
    let mut s = State::default();
    s.update(Message::LatitudeChanged(String::from("40")));
    s.update(Message::LongitudeChanged(String::from("-74")));
    s.update(Message::AltitudeChanged(String::from("45")));
    s.update(Message::AzimuthChanged(String::from("180")));
    s.update(Message::YearChanged(String::from("2024")));
    s.update(Message::MonthChanged(String::from("6")));
    s.update(Message::DayChanged(String::from("21")));
    s.update(Message::HourChanged(String::from("18")));
    s.update(Message::MinuteChanged(String::from("0")));
    s.update(Message::SecondChanged(String::from("0")));
    s.update(Message::FetchEquatorial);
    assert_eq!(s.ra, 106_423_212);
    assert_eq!(s.dec, -4_909_086);
    // A degenerate conversion leaves the previous result standing.
    s.update(Message::LatitudeChanged(String::from("90")));
    s.update(Message::AzimuthChanged(String::from("0")));
    s.update(Message::LongitudeChanged(String::from("0")));
    s.update(Message::FetchEquatorial);
    assert_eq!(s.ra, 106_423_212);
    assert_eq!(s.dec, -4_909_086);
}
