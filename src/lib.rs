//! Parsing of geographic coordinates written after ISO 6709, in the
//! human-readable notation (`15°30′00.000″N 95°15′00.000″W 123.45m`) and in
//! the string representation (`+1223.101-02123.101+2321CRSWGS_85/`).
//!
//! Values are exact: an angle keeps its degrees, minutes, seconds and the
//! decimal digits of its last field, and an altitude its decimal digits.
use vstd::prelude::*;

pub mod coord;
pub mod error;
pub mod human_readable;
pub mod lemmas;
pub mod string_expression;
pub mod text;

pub use crate::coord::{Altitude, Angle, FractionOf, ISO6709Coord};
pub use crate::error::ISO6709Error;

use crate::coord::CoordModel;
use crate::human_readable::readable_latlong_altitude_option;
use crate::string_expression::compact_latlong_altitude_option;
use crate::text::{blank_end, chars_of, lemma_blank_end, scan_blanks};

verus! {

/// A whole human-readable coordinate: blanks may surround it, and what
/// follows it is not read.
pub open spec fn readable_coord(s: Seq<char>) -> Option<CoordModel> {
    match readable_latlong_altitude_option(s, blank_end(s, 0)) {
        Some(((lat, lon), altitude, _)) => Some(CoordModel { lat, lon, altitude }),
        None => None,
    }
}

/// A whole coordinate in the string representation: blanks may surround it,
/// and what follows it is not read.
pub open spec fn string_coord(s: Seq<char>) -> Option<CoordModel> {
    match compact_latlong_altitude_option(s, blank_end(s, 0)) {
        Some(((lat, lon), altitude, _)) => Some(CoordModel { lat, lon, altitude }),
        None => None,
    }
}

/// A coordinate in either notation: the human-readable one where it applies,
/// else the string representation.
pub open spec fn either_coord(s: Seq<char>) -> Option<CoordModel> {
    match readable_coord(s) {
        Some(c) => Some(c),
        None => string_coord(s),
    }
}

/// Parses a coordinate in the human-readable notation:
/// `15°30′00.000″N 95°15′00.000″W 123.45m`. The marks `'` and `"` may stand
/// for `′` and `″`. Fails where the latitude exceeds 90 degrees or the
/// longitude 180.
pub fn parse_readable(str: &str) -> (r: Result<ISO6709Coord, ISO6709Error>)
    ensures
        match readable_coord(str@) {
            Some(c) => r matches Ok(v) && v@ == c,
            None => r is Err,
        },
{
    let s = chars_of(str);
    let start = scan_blanks(&s, 0);
    proof {
        lemma_blank_end(s@, 0);
    }
    match crate::human_readable::latlong_altitude_option_at(&s, start) {
        Some(((lat, lon), altitude, _)) => Ok(ISO6709Coord { lat, lon, altitude }),
        None => Err(ISO6709Error::new("not a human-readable ISO 6709 coordinate")),
    }
}

/// Parses a coordinate in the string representation:
/// `N35.50W170.10+8712CRSWGS_85/`. Degrees, minutes and seconds are written
/// in fixed-width fields (`DD.DDD`, `DDMM.MMM`, `DDMMSS.SSS`; three degree
/// digits for longitude), signed by `+`/`-` or by `N`/`S` and `E`/`W`. Fails
/// where the latitude exceeds 90 degrees or the longitude 180.
pub fn parse_string_representation(str: &str) -> (r: Result<ISO6709Coord, ISO6709Error>)
    ensures
        match string_coord(str@) {
            Some(c) => r matches Ok(v) && v@ == c,
            None => r is Err,
        },
{
    let s = chars_of(str);
    let start = scan_blanks(&s, 0);
    proof {
        lemma_blank_end(s@, 0);
    }
    match crate::string_expression::latlong_altitude_option_at(&s, start) {
        Some(((lat, lon), altitude, _)) => Ok(ISO6709Coord { lat, lon, altitude }),
        None => Err(ISO6709Error::new("not an ISO 6709 string representation")),
    }
}

/// Parses a coordinate in either notation: the human-readable one first, then
/// the string representation. The error is that of the second attempt.
pub fn parse(str: &str) -> (r: Result<ISO6709Coord, ISO6709Error>)
    ensures
        match either_coord(str@) {
            Some(c) => r matches Ok(v) && v@ == c,
            None => r is Err,
        },
{
    match parse_readable(str) {
        Ok(x) => Ok(x),
        Err(_) => parse_string_representation(str),
    }
}

} // verus!
