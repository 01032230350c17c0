//! The string representation notation: `+1223.101-02123.101+2321CRSWGS_85/`.
use vstd::prelude::*;
use vstd::string::*;

use crate::coord::{Altitude, AltitudeModel, Angle, AngleModel, FractionOf};
use crate::error::ISO6709Error;
use crate::text::{
    char_is, chars_of, fixed_field, fraction_at, has_char, numeral_at, read_fixed, read_fraction,
    read_numeral, rest_of,
};

verus! {

/// Whether position `i` holds `plus` or `+`.
pub open spec fn positive_mark(s: Seq<char>, i: int, plus: char) -> bool {
    char_is(s, i, plus) || char_is(s, i, '+')
}

/// Whether position `i` holds `minus` or `-`.
pub open spec fn negative_mark(s: Seq<char>, i: int, minus: char) -> bool {
    char_is(s, i, minus) || char_is(s, i, '-')
}

/// The unsigned magnitude at `pos`, with a degree field of `width` digits.
/// The layouts are tried longest first: degrees, minutes and seconds; then
/// degrees and minutes; then degrees alone. A layout whose fields are all
/// present but whose minutes or seconds reach sixty fails the whole. The last
/// field may carry a decimal fraction.
pub open spec fn compact_magnitude(s: Seq<char>, pos: int, width: int) -> Option<(AngleModel, int)> {
    match fixed_field(s, pos, width) {
        None => None,
        Some(d) => match fixed_field(s, pos + width, 2) {
            None => {
                let (f, e) = fraction_at(s, pos + width);
                Some(
                    (
                        AngleModel {
                            negative: false,
                            degrees: d,
                            minutes: 0,
                            seconds: 0,
                            fraction: f,
                            fraction_of: FractionOf::Degrees,
                        },
                        e,
                    ),
                )
            },
            Some(m) => match fixed_field(s, pos + width + 2, 2) {
                None => {
                    if m >= 60 {
                        None
                    } else {
                        let (f, e) = fraction_at(s, pos + width + 2);
                        Some(
                            (
                                AngleModel {
                                    negative: false,
                                    degrees: d,
                                    minutes: m,
                                    seconds: 0,
                                    fraction: f,
                                    fraction_of: FractionOf::Minutes,
                                },
                                e,
                            ),
                        )
                    }
                },
                Some(sec) => {
                    if m >= 60 || sec >= 60 {
                        None
                    } else {
                        let (f, e) = fraction_at(s, pos + width + 4);
                        Some(
                            (
                                AngleModel {
                                    negative: false,
                                    degrees: d,
                                    minutes: m,
                                    seconds: sec,
                                    fraction: f,
                                    fraction_of: FractionOf::Seconds,
                                },
                                e,
                            ),
                        )
                    }
                },
            },
        },
    }
}

/// A sign (`plus` or `+`, `minus` or `-`) followed by a magnitude whose degree
/// field has `width` digits, of at most `bound` degrees.
pub open spec fn compact_angle(
    s: Seq<char>,
    pos: int,
    plus: char,
    minus: char,
    width: int,
    bound: nat,
) -> Option<(AngleModel, int)> {
    if !(positive_mark(s, pos, plus) || negative_mark(s, pos, minus)) {
        None
    } else {
        match compact_magnitude(s, pos + 1, width) {
            Some((m, e)) => {
                let a = AngleModel { negative: negative_mark(s, pos, minus), ..m };
                if a.within(bound) {
                    Some((a, e))
                } else {
                    None
                }
            },
            None => None,
        }
    }
}

/// A latitude: `N`/`+` or `S`/`-`, two degree digits, at most 90 degrees.
pub open spec fn compact_latitude(s: Seq<char>, pos: int) -> Option<(AngleModel, int)> {
    compact_angle(s, pos, 'N', 'S', 2, 90)
}

/// A longitude: `E`/`+` or `W`/`-`, three degree digits, at most 180 degrees.
pub open spec fn compact_longitude(s: Seq<char>, pos: int) -> Option<(AngleModel, int)> {
    compact_angle(s, pos, 'E', 'W', 3, 180)
}

/// An altitude: `+` or `-`, an unsigned decimal numeral, and the tag `CRS`.
/// Gives the altitude and the position after the tag.
pub open spec fn compact_altitude(s: Seq<char>, pos: int) -> Option<(AltitudeModel, int)> {
    if !(char_is(s, pos, '+') || char_is(s, pos, '-')) {
        None
    } else {
        match numeral_at(s, pos + 1) {
            Some((i, f, e)) => {
                if char_is(s, e, 'C') && char_is(s, e + 1, 'R') && char_is(s, e + 2, 'S') {
                    Some(
                        (AltitudeModel { negative: char_is(s, pos, '-'), integer: i, fraction: f }, e
                            + 3),
                    )
                } else {
                    None
                }
            },
            None => None,
        }
    }
}

/// The end of the reference-system name at `pos`: the run of characters other than `/`.
pub open spec fn name_end(s: Seq<char>, pos: int) -> int
    decreases s.len() - pos,
{
    if 0 <= pos < s.len() && s[pos] != '/' {
        name_end(s, pos + 1)
    } else {
        pos
    }
}

/// An altitude block: an altitude with its tag, followed by a non-empty
/// reference-system name, which is left unread.
pub open spec fn compact_altitude_block(s: Seq<char>, pos: int) -> Option<(AltitudeModel, int)> {
    match compact_altitude(s, pos) {
        Some((a, e)) => if name_end(s, e) > e {
            Some((a, e))
        } else {
            None
        },
        None => None,
    }
}

/// A latitude followed directly by a longitude.
pub open spec fn compact_latlong(s: Seq<char>, pos: int) -> Option<((AngleModel, AngleModel), int)> {
    match compact_latitude(s, pos) {
        Some((lat, p1)) => match compact_longitude(s, p1) {
            Some((lon, p2)) => Some(((lat, lon), p2)),
            None => None,
        },
        None => None,
    }
}

/// A latitude and longitude followed by an altitude block.
pub open spec fn compact_latlong_altitude(s: Seq<char>, pos: int) -> Option<
    ((AngleModel, AngleModel), AltitudeModel, int),
> {
    match compact_latlong(s, pos) {
        Some((ll, p2)) => match compact_altitude_block(s, p2) {
            Some((alt, e)) => Some((ll, alt, e)),
            None => None,
        },
        None => None,
    }
}

/// A latitude and longitude, then an altitude block where a sign follows.
/// A block that starts and is malformed fails the whole.
pub open spec fn compact_latlong_altitude_option(s: Seq<char>, pos: int) -> Option<
    ((AngleModel, AngleModel), Option<AltitudeModel>, int),
> {
    match compact_latlong(s, pos) {
        Some((ll, p2)) => if char_is(s, p2, '+') || char_is(s, p2, '-') {
            match compact_altitude_block(s, p2) {
                Some((alt, e)) => Some((ll, Some(alt), e)),
                None => None,
            }
        } else {
            Some((ll, None, p2))
        },
        None => None,
    }
}

/// Reads a magnitude at `pos` (see [`compact_magnitude`]).
pub fn magnitude_at(s: &Vec<char>, pos: usize, width: usize) -> (r: Option<(Angle, usize)>)
    requires
        pos <= s@.len(),
        width == 2 || width == 3,
    ensures
        r matches Some((a, e)) ==> compact_magnitude(s@, pos as int, width as int) == Some(
            (a@, e as int),
        ) && e <= s@.len() && a@.wf(),
        r is None <==> compact_magnitude(s@, pos as int, width as int) is None,
{
    if pos >= s.len() {
        return None;
    }
    let d = match read_fixed(s, pos, width) {
        Some(d) => d,
        None => return None,
    };
    let p1 = pos + width;
    match read_fixed(s, p1, 2) {
        None => {
            let (fraction, e) = read_fraction(s, p1);
            Some(
                (
                    Angle {
                        negative: false,
                        degrees: d,
                        minutes: 0,
                        seconds: 0,
                        fraction,
                        fraction_of: FractionOf::Degrees,
                    },
                    e,
                ),
            )
        },
        Some(m) => {
            let p2 = p1 + 2;
            match read_fixed(s, p2, 2) {
                None => {
                    if m >= 60 {
                        return None;
                    }
                    let (fraction, e) = read_fraction(s, p2);
                    Some(
                        (
                            Angle {
                                negative: false,
                                degrees: d,
                                minutes: m,
                                seconds: 0,
                                fraction,
                                fraction_of: FractionOf::Minutes,
                            },
                            e,
                        ),
                    )
                },
                Some(sec) => {
                    if m >= 60 || sec >= 60 {
                        return None;
                    }
                    let (fraction, e) = read_fraction(s, p2 + 2);
                    Some(
                        (
                            Angle {
                                negative: false,
                                degrees: d,
                                minutes: m,
                                seconds: sec,
                                fraction,
                                fraction_of: FractionOf::Seconds,
                            },
                            e,
                        ),
                    )
                },
            }
        },
    }
}

/// Reads the sign mark at `pos`: `Some(true)` for `minus` or `-`,
/// `Some(false)` for `plus` or `+`.
pub fn sign_at(s: &Vec<char>, pos: usize, plus: char, minus: char) -> (r: Option<bool>)
    requires
        plus != '-',
        minus != '+',
        plus != minus,
    ensures
        r == (if negative_mark(s@, pos as int, minus) {
            Some(true)
        } else if positive_mark(s@, pos as int, plus) {
            Some(false)
        } else {
            None::<bool>
        }),
        r is Some ==> pos < s@.len(),
{
    if has_char(s, pos, minus) || has_char(s, pos, '-') {
        Some(true)
    } else if has_char(s, pos, plus) || has_char(s, pos, '+') {
        Some(false)
    } else {
        None
    }
}

/// Reads a signed angle at `pos` (see [`compact_angle`]).
pub fn angle_at(s: &Vec<char>, pos: usize, plus: char, minus: char, width: usize, bound: u32) -> (r:
    Option<(Angle, usize)>)
    requires
        pos <= s@.len(),
        width == 2 || width == 3,
        plus != '-',
        minus != '+',
        plus != minus,
    ensures
        r matches Some((a, e)) ==> compact_angle(
            s@,
            pos as int,
            plus,
            minus,
            width as int,
            bound as nat,
        ) == Some((a@, e as int)) && e <= s@.len() && a@.wf(),
        r is None <==> compact_angle(s@, pos as int, plus, minus, width as int, bound as nat) is None,
{
    if pos >= s.len() {
        return None;
    }
    let negative = match sign_at(s, pos, plus, minus) {
        Some(n) => n,
        None => return None,
    };
    let (m, e) = match magnitude_at(s, pos + 1, width) {
        Some(x) => x,
        None => return None,
    };
    let a = Angle { negative, ..m };
    assert(a@ == AngleModel { negative: negative, ..m@ });
    if a.within_bound(bound) {
        Some((a, e))
    } else {
        None
    }
}

/// Reads an altitude with its tag at `pos` (see [`compact_altitude`]).
pub fn altitude_at(s: &Vec<char>, pos: usize) -> (r: Option<(Altitude, usize)>)
    requires
        pos <= s@.len(),
    ensures
        r matches Some((a, e)) ==> compact_altitude(s@, pos as int) == Some((a@, e as int)) && e
            <= s@.len(),
        r is None <==> compact_altitude(s@, pos as int) is None,
{
    if pos >= s.len() {
        return None;
    }
    let negative = has_char(s, pos, '-');
    if !(negative || has_char(s, pos, '+')) {
        return None;
    }
    let (integer, fraction, e) = match read_numeral(s, pos + 1) {
        Some(x) => x,
        None => return None,
    };
    if has_char(s, e, 'C') && has_char(s, e + 1, 'R') && has_char(s, e + 2, 'S') {
        Some((Altitude { negative, integer, fraction }, e + 3))
    } else {
        None
    }
}

/// Scans the reference-system name at `pos` and returns where it ends.
pub fn scan_name(s: &Vec<char>, pos: usize) -> (end: usize)
    requires
        pos <= s@.len(),
    ensures
        end as int == name_end(s@, pos as int),
        pos <= end <= s@.len(),
{
    let mut i: usize = pos;
    while i < s.len() && s[i] != '/'
        invariant
            pos <= i <= s@.len(),
            name_end(s@, i as int) == name_end(s@, pos as int),
        decreases s@.len() - i,
    {
        i = i + 1;
    }
    i
}

/// Reads an altitude block at `pos` (see [`compact_altitude_block`]).
pub fn altitude_block_at(s: &Vec<char>, pos: usize) -> (r: Option<(Altitude, usize)>)
    requires
        pos <= s@.len(),
    ensures
        r matches Some((a, e)) ==> compact_altitude_block(s@, pos as int) == Some((a@, e as int))
            && e <= s@.len(),
        r is None <==> compact_altitude_block(s@, pos as int) is None,
{
    let (a, e) = match altitude_at(s, pos) {
        Some(x) => x,
        None => return None,
    };
    if scan_name(s, e) > e {
        Some((a, e))
    } else {
        None
    }
}

/// Reads a latitude and a longitude at `pos` (see [`compact_latlong`]).
pub fn latlong_at(s: &Vec<char>, pos: usize) -> (r: Option<((Angle, Angle), usize)>)
    requires
        pos <= s@.len(),
    ensures
        r matches Some((ll, e)) ==> compact_latlong(s@, pos as int) == Some(
            ((ll.0@, ll.1@), e as int),
        ) && e <= s@.len() && ll.0@.wf() && ll.1@.wf(),
        r is None <==> compact_latlong(s@, pos as int) is None,
{
    let (lat, p1) = match angle_at(s, pos, 'N', 'S', 2, 90) {
        Some(x) => x,
        None => return None,
    };
    match angle_at(s, p1, 'E', 'W', 3, 180) {
        Some((lon, p2)) => Some(((lat, lon), p2)),
        None => None,
    }
}

/// Reads a latitude, a longitude and an altitude block at `pos`
/// (see [`compact_latlong_altitude`]).
pub fn latlong_altitude_at(s: &Vec<char>, pos: usize) -> (r: Option<((Angle, Angle), Altitude, usize)>)
    requires
        pos <= s@.len(),
    ensures
        r matches Some((ll, alt, e)) ==> compact_latlong_altitude(s@, pos as int) == Some(
            ((ll.0@, ll.1@), alt@, e as int),
        ) && e <= s@.len(),
        r is None <==> compact_latlong_altitude(s@, pos as int) is None,
{
    let (ll, p2) = match latlong_at(s, pos) {
        Some(x) => x,
        None => return None,
    };
    match altitude_block_at(s, p2) {
        Some((alt, e)) => Some((ll, alt, e)),
        None => None,
    }
}

/// Reads a latitude, a longitude and an optional altitude block at `pos`
/// (see [`compact_latlong_altitude_option`]).
pub fn latlong_altitude_option_at(s: &Vec<char>, pos: usize) -> (r: Option<
    ((Angle, Angle), Option<Altitude>, usize),
>)
    requires
        pos <= s@.len(),
    ensures
        r matches Some((ll, alt, e)) ==> compact_latlong_altitude_option(s@, pos as int) == Some(
            ((ll.0@, ll.1@), crate::coord::altitude_view(alt), e as int),
        ) && e <= s@.len() && ll.0@.wf() && ll.1@.wf(),
        r is None <==> compact_latlong_altitude_option(s@, pos as int) is None,
{
    let (ll, p2) = match latlong_at(s, pos) {
        Some(x) => x,
        None => return None,
    };
    if has_char(s, p2, '+') || has_char(s, p2, '-') {
        match altitude_block_at(s, p2) {
            Some((alt, e)) => Some((ll, Some(alt), e)),
            None => None,
        }
    } else {
        Some((ll, None, p2))
    }
}

/// Parses a latitude at the start of `inp`: `N45.45`, `-4520.30`, `+452035.1528`.
/// Gives what follows it and the angle; fails beyond 90 degrees.
pub fn latitude_parser(inp: &str) -> (r: Result<(&str, Angle), ISO6709Error>)
    ensures
        match compact_latitude(inp@, 0) {
            Some((a, e)) => r matches Ok((rest, v)) && v@ == a && rest@ == inp@.subrange(
                e,
                inp@.len() as int,
            ),
            None => r is Err,
        },
{
    let s = chars_of(inp);
    match angle_at(&s, 0, 'N', 'S', 2, 90) {
        Some((a, e)) => Ok((rest_of(inp, e), a)),
        None => Err(ISO6709Error::new("invalid latitude")),
    }
}

/// Parses a longitude at the start of `inp`: `W145.45`, `+14520.30`, `-1452035.1528`.
/// Gives what follows it and the angle; fails beyond 180 degrees.
pub fn longitude_parser(inp: &str) -> (r: Result<(&str, Angle), ISO6709Error>)
    ensures
        match compact_longitude(inp@, 0) {
            Some((a, e)) => r matches Ok((rest, v)) && v@ == a && rest@ == inp@.subrange(
                e,
                inp@.len() as int,
            ),
            None => r is Err,
        },
{
    let s = chars_of(inp);
    match angle_at(&s, 0, 'E', 'W', 3, 180) {
        Some((a, e)) => Ok((rest_of(inp, e), a)),
        None => Err(ISO6709Error::new("invalid longitude")),
    }
}

/// Parses a signed altitude and its `CRS` tag at the start of `inp`:
/// `+2122CRS`. The reference-system name is left in what follows.
pub fn altitude_parser(inp: &str) -> (r: Result<(&str, Altitude), ISO6709Error>)
    ensures
        match compact_altitude(inp@, 0) {
            Some((a, e)) => r matches Ok((rest, v)) && v@ == a && rest@ == inp@.subrange(
                e,
                inp@.len() as int,
            ),
            None => r is Err,
        },
{
    let s = chars_of(inp);
    match altitude_at(&s, 0) {
        Some((a, e)) => Ok((rest_of(inp, e), a)),
        None => Err(ISO6709Error::new("invalid altitude")),
    }
}

/// Parses a latitude directly followed by a longitude at the start of `inp`.
pub fn latlong_parser(inp: &str) -> (r: Result<(&str, (Angle, Angle)), ISO6709Error>)
    ensures
        match compact_latlong(inp@, 0) {
            Some((ll, e)) => r matches Ok((rest, v)) && (v.0@, v.1@) == ll && rest@
                == inp@.subrange(e, inp@.len() as int),
            None => r is Err,
        },
{
    let s = chars_of(inp);
    match latlong_at(&s, 0) {
        Some((ll, e)) => Ok((rest_of(inp, e), ll)),
        None => Err(ISO6709Error::new("invalid latitude and longitude")),
    }
}

/// Parses a latitude, a longitude and an altitude block at the start of `inp`.
/// The reference-system name is left in what follows.
pub fn latlong_altitude_parser(inp: &str) -> (r: Result<(&str, ((Angle, Angle), Altitude)), ISO6709Error>)
    ensures
        match compact_latlong_altitude(inp@, 0) {
            Some((ll, alt, e)) => r matches Ok((rest, v)) && (v.0.0@, v.0.1@) == ll && v.1@ == alt
                && rest@ == inp@.subrange(e, inp@.len() as int),
            None => r is Err,
        },
{
    let s = chars_of(inp);
    match latlong_altitude_at(&s, 0) {
        Some((ll, alt, e)) => Ok((rest_of(inp, e), (ll, alt))),
        None => Err(ISO6709Error::new("invalid coordinate with altitude")),
    }
}

/// Parses a latitude, a longitude and, where a sign follows, an altitude
/// block at the start of `inp`.
pub fn latlong_altitude_option_parser(inp: &str) -> (r: Result<(&str, ((Angle, Angle), Option<Altitude>)), ISO6709Error>)
    ensures
        match compact_latlong_altitude_option(inp@, 0) {
            Some((ll, alt, e)) => r matches Ok((rest, v)) && (v.0.0@, v.0.1@) == ll
                && crate::coord::altitude_view(v.1) == alt && rest@ == inp@.subrange(
                e,
                inp@.len() as int,
            ),
            None => r is Err,
        },
{
    let s = chars_of(inp);
    match latlong_altitude_option_at(&s, 0) {
        Some((ll, alt, e)) => Ok((rest_of(inp, e), (ll, alt))),
        None => Err(ISO6709Error::new("invalid coordinate")),
    }
}

/// Parses the hemisphere of a latitude at the start of `inp`: `N` or `+`
/// give `1`, `S` or `-` give `-1`.
pub fn parse_north_or_south(inp: &str) -> (r: Result<(&str, i8), ISO6709Error>)
    ensures
        negative_mark(inp@, 0, 'S') ==> (r matches Ok((rest, v)) && v == -1 && rest@
            == inp@.subrange(1, inp@.len() as int)),
        positive_mark(inp@, 0, 'N') ==> (r matches Ok((rest, v)) && v == 1 && rest@
            == inp@.subrange(1, inp@.len() as int)),
        !negative_mark(inp@, 0, 'S') && !positive_mark(inp@, 0, 'N') ==> r is Err,
{
    let s = chars_of(inp);
    match sign_at(&s, 0, 'N', 'S') {
        Some(true) => Ok((rest_of(inp, 1), -1)),
        Some(false) => Ok((rest_of(inp, 1), 1)),
        None => Err(ISO6709Error::new("missing hemisphere of latitude")),
    }
}

/// Parses the hemisphere of a longitude at the start of `inp`: `E` or `+`
/// give `1`, `W` or `-` give `-1`.
pub fn parse_east_or_west(inp: &str) -> (r: Result<(&str, i8), ISO6709Error>)
    ensures
        negative_mark(inp@, 0, 'W') ==> (r matches Ok((rest, v)) && v == -1 && rest@
            == inp@.subrange(1, inp@.len() as int)),
        positive_mark(inp@, 0, 'E') ==> (r matches Ok((rest, v)) && v == 1 && rest@
            == inp@.subrange(1, inp@.len() as int)),
        !negative_mark(inp@, 0, 'W') && !positive_mark(inp@, 0, 'E') ==> r is Err,
{
    let s = chars_of(inp);
    match sign_at(&s, 0, 'E', 'W') {
        Some(true) => Ok((rest_of(inp, 1), -1)),
        Some(false) => Ok((rest_of(inp, 1), 1)),
        None => Err(ISO6709Error::new("missing hemisphere of longitude")),
    }
}

/// Parses a decimal fraction at the start of `inp`: a `.` and one or more
/// digits. Gives what follows it and the digits.
pub fn parse_decimal(inp: &str) -> (r: Result<(&str, Vec<u8>), ISO6709Error>)
    ensures
        fraction_at(inp@, 0).1 > 0 ==> (r matches Ok((rest, d)) && d@ == fraction_at(inp@, 0).0
            && rest@ == inp@.subrange(fraction_at(inp@, 0).1, inp@.len() as int)),
        fraction_at(inp@, 0).1 == 0 ==> r is Err,
{
    let s = chars_of(inp);
    let (d, e) = read_fraction(&s, 0);
    if e > 0 {
        Ok((rest_of(inp, e), d))
    } else {
        Err(ISO6709Error::new("missing decimal fraction"))
    }
}

/// Parses an altitude with its tag and the reference-system name that
/// follows at the start of `inp`: `+2122CRSWGS_85/`. Gives what follows the
/// name and the name.
pub fn crs_parser(inp: &str) -> (r: Result<(&str, &str), ISO6709Error>)
    ensures
        match compact_altitude(inp@, 0) {
            Some((_, e)) => if name_end(inp@, e) > e {
                r matches Ok((rest, name)) && name@ == inp@.subrange(e, name_end(inp@, e))
                    && rest@ == inp@.subrange(name_end(inp@, e), inp@.len() as int)
            } else {
                r is Err
            },
            None => r is Err,
        },
{
    let s = chars_of(inp);
    let e = match altitude_at(&s, 0) {
        Some((_, e)) => e,
        None => return Err(ISO6709Error::new("invalid altitude")),
    };
    let ne = scan_name(&s, e);
    if ne > e {
        Ok((rest_of(inp, ne), inp.substring_char(e, ne)))
    } else {
        Err(ISO6709Error::new("missing reference-system name"))
    }
}

} // verus!
