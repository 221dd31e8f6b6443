//! Conversion of a celestial object's horizontal coordinates (altitude and
//! azimuth, as seen from a given latitude and longitude at a given UTC
//! instant) into equatorial coordinates (right ascension and declination).
//!
//! All quantities are held in fixed-point integers: angles in micro-degrees
//! and trigonometric ratios scaled by one million, so that every step of the
//! pipeline is exact integer arithmetic with proved bounds. A Julian Day is
//! held as a whole number of seconds, which represents the classical
//! day-count (whose fractional part encodes the time of day) without loss.

pub mod fixed;
pub mod julian;
pub mod parse;
pub mod sidereal;
pub mod trig;
pub mod horizon;
pub mod form;
