//! The form model: the ten free-text input fields, the messages that edit
//! them, and the action that runs the conversion over their parsed values.
//! A field that does not parse contributes zero — that recovery policy
//! lives here, stated in the contracts, not hidden inside a parser.

use vstd::prelude::*;
use crate::parse::{spec_parse_micro, spec_parse_i32};
use crate::horizon::spec_horizon;

verus! {

/// A parse result collapsed by the form's recovery policy: an unparsed
/// field counts as zero.
pub open spec fn or_zero(o: Option<int>) -> int {
    match o {
        Some(v) => v,
        None => 0,
    }
}

/// One edit of the form: a new text for one of the ten fields, or the
/// request to convert the current fields.
#[derive(Debug, Clone)]
pub enum Message {
    LatitudeChanged(String),
    LongitudeChanged(String),
    AltitudeChanged(String),
    AzimuthChanged(String),
    YearChanged(String),
    MonthChanged(String),
    DayChanged(String),
    HourChanged(String),
    MinuteChanged(String),
    SecondChanged(String),
    FetchEquatorial,
}

/// The form's state: the ten field texts and the last conversion result
/// (right ascension and declination, in micro-degrees).
pub struct State {
    pub latitude: String,
    pub longitude: String,
    pub altitude: String,
    pub azimuth: String,
    pub year: String,
    pub month: String,
    pub day: String,
    pub hour: String,
    pub minute: String,
    pub second: String,
    pub ra: i64,
    pub dec: i64,
}

impl Default for State {
    /// The empty form: every field blank, both results zero.
    fn default() -> (s: State)
        ensures
            s.latitude@ == Seq::<char>::empty(),
            s.longitude@ == Seq::<char>::empty(),
            s.altitude@ == Seq::<char>::empty(),
            s.azimuth@ == Seq::<char>::empty(),
            s.year@ == Seq::<char>::empty(),
            s.month@ == Seq::<char>::empty(),
            s.day@ == Seq::<char>::empty(),
            s.hour@ == Seq::<char>::empty(),
            s.minute@ == Seq::<char>::empty(),
            s.second@ == Seq::<char>::empty(),
            s.ra == 0,
            s.dec == 0,
    {
        State {
            latitude: String::new(),
            longitude: String::new(),
            altitude: String::new(),
            azimuth: String::new(),
            year: String::new(),
            month: String::new(),
            day: String::new(),
            hour: String::new(),
            minute: String::new(),
            second: String::new(),
            ra: 0,
            dec: 0,
        }
    }
}

/// Parses the ten field texts into the conversion's inputs, substituting
/// zero for every field that does not parse: angles in micro-degrees,
/// calendar fields as whole numbers.
pub fn to_correct(
    latitude: &String,
    longitude: &String,
    altitude: &String,
    azimuth: &String,
    year: &String,
    month: &String,
    day: &String,
    hour: &String,
    minute: &String,
    second: &String,
) -> (r: (i64, i64, i64, i64, i32, i32, i32, i32, i32, i32))
    ensures
        r.0 as int == or_zero(spec_parse_micro(latitude@)),
        r.1 as int == or_zero(spec_parse_micro(longitude@)),
        r.2 as int == or_zero(spec_parse_micro(altitude@)),
        r.3 as int == or_zero(spec_parse_micro(azimuth@)),
        r.4 as int == or_zero(spec_parse_i32(year@)),
        r.5 as int == or_zero(spec_parse_i32(month@)),
        r.6 as int == or_zero(spec_parse_i32(day@)),
        r.7 as int == or_zero(spec_parse_i32(hour@)),
        r.8 as int == or_zero(spec_parse_i32(minute@)),
        r.9 as int == or_zero(spec_parse_i32(second@)),
{
    let new_lat: i64 = match crate::parse::parse_angle_micro(latitude.as_str()) {
        Some(v) => v,
        None => 0,
    };
    let new_long: i64 = match crate::parse::parse_angle_micro(longitude.as_str()) {
        Some(v) => v,
        None => 0,
    };
    let new_alt: i64 = match crate::parse::parse_angle_micro(altitude.as_str()) {
        Some(v) => v,
        None => 0,
    };
    let new_azi: i64 = match crate::parse::parse_angle_micro(azimuth.as_str()) {
        Some(v) => v,
        None => 0,
    };
    let new_year: i32 = match crate::parse::parse_i32(year.as_str()) {
        Some(v) => v,
        None => 0,
    };
    let new_month: i32 = match crate::parse::parse_i32(month.as_str()) {
        Some(v) => v,
        None => 0,
    };
    let new_day: i32 = match crate::parse::parse_i32(day.as_str()) {
        Some(v) => v,
        None => 0,
    };
    let new_hour: i32 = match crate::parse::parse_i32(hour.as_str()) {
        Some(v) => v,
        None => 0,
    };
    let new_min: i32 = match crate::parse::parse_i32(minute.as_str()) {
        Some(v) => v,
        None => 0,
    };
    let new_sec: i32 = match crate::parse::parse_i32(second.as_str()) {
        Some(v) => v,
        None => 0,
    };
    (new_lat, new_long, new_alt, new_azi, new_year, new_month, new_day, new_hour, new_min, new_sec)
}

/// The conversion the form runs on its current fields, at specification
/// level: every field parsed under the zero-substitution policy, then the
/// coordinate pipeline.
pub open spec fn spec_form_result(s: State) -> Option<(int, int)> {
    spec_horizon(
        or_zero(spec_parse_micro(s.latitude@)),
        or_zero(spec_parse_micro(s.longitude@)),
        or_zero(spec_parse_micro(s.altitude@)),
        or_zero(spec_parse_micro(s.azimuth@)),
        or_zero(spec_parse_i32(s.year@)),
        or_zero(spec_parse_i32(s.month@)),
        or_zero(spec_parse_i32(s.day@)),
        or_zero(spec_parse_i32(s.hour@)),
        or_zero(spec_parse_i32(s.minute@)),
        or_zero(spec_parse_i32(s.second@)),
    )
}

impl State {
    /// Applies one message: a field edit replaces that field's text and
    /// nothing else; the conversion request parses the fields, runs the
    /// pipeline, and stores the new result pair — or, when the geometry
    /// is degenerate, leaves the previous result standing.
    pub fn update(&mut self, message: Message)
        ensures
            match message {
                Message::LatitudeChanged(v) => *final(self) == State { latitude: v, ..*old(self) },
                Message::LongitudeChanged(v) => *final(self) == State { longitude: v, ..*old(self) },
                Message::AltitudeChanged(v) => *final(self) == State { altitude: v, ..*old(self) },
                Message::AzimuthChanged(v) => *final(self) == State { azimuth: v, ..*old(self) },
                Message::YearChanged(v) => *final(self) == State { year: v, ..*old(self) },
                Message::MonthChanged(v) => *final(self) == State { month: v, ..*old(self) },
                Message::DayChanged(v) => *final(self) == State { day: v, ..*old(self) },
                Message::HourChanged(v) => *final(self) == State { hour: v, ..*old(self) },
                Message::MinuteChanged(v) => *final(self) == State { minute: v, ..*old(self) },
                Message::SecondChanged(v) => *final(self) == State { second: v, ..*old(self) },
                Message::FetchEquatorial => match spec_form_result(*old(self)) {
                    Some(pair) => *final(self) == State {
                        ra: pair.0 as i64,
                        dec: pair.1 as i64,
                        ..*old(self)
                    },
                    None => *final(self) == *old(self),
                },
            },
    {
        match message {
            Message::LatitudeChanged(latitude) => {
                self.latitude = latitude;
            },
            Message::LongitudeChanged(longitude) => {
                self.longitude = longitude;
            },
            Message::AltitudeChanged(altitude) => {
                self.altitude = altitude;
            },
            Message::AzimuthChanged(azimuth) => {
                self.azimuth = azimuth;
            },
            Message::YearChanged(year) => {
                self.year = year;
            },
            Message::MonthChanged(month) => {
                self.month = month;
            },
            Message::DayChanged(day) => {
                self.day = day;
            },
            Message::HourChanged(hour) => {
                self.hour = hour;
            },
            Message::MinuteChanged(minute) => {
                self.minute = minute;
            },
            Message::SecondChanged(second) => {
                self.second = second;
            },
            Message::FetchEquatorial => {
                let parsed: (i64, i64, i64, i64, i32, i32, i32, i32, i32, i32) = to_correct(
                    &self.latitude,
                    &self.longitude,
                    &self.altitude,
                    &self.azimuth,
                    &self.year,
                    &self.month,
                    &self.day,
                    &self.hour,
                    &self.minute,
                    &self.second,
                );
                let converted: Result<(i64, i64), crate::horizon::HorizonError> =
                    crate::horizon::horizon_to_equatorial(
                    parsed.0,
                    parsed.1,
                    parsed.2,
                    parsed.3,
                    parsed.4,
                    parsed.5,
                    parsed.6,
                    parsed.7,
                    parsed.8,
                    parsed.9,
                );
                match converted {
                    Ok(pair) => {
                        self.ra = pair.0;
                        self.dec = pair.1;
                    },
                    Err(_) => {},
                }
            },
        }
    }
}

} // verus!
