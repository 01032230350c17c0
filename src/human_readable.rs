//! The human-readable notation: `15°30′00.000″N 95°15′00.000″W 123.45m`.
use vstd::prelude::*;
use vstd::string::*;

use crate::coord::{Altitude, AltitudeModel, Angle, AngleModel, FractionOf};
use crate::error::ISO6709Error;
use crate::text::{
    char_is, chars_of, digit_at, fraction_at, has_char, lemma_run_end, lemma_space_end,
    numeral_at, number, read_fraction, read_number, read_numeral, rest_of, run_end, scan_digits,
    scan_spaces, space_end,
};

verus! {

/// Whether position `i` holds the minute mark `′` or its fallback `'`.
pub open spec fn minute_mark(s: Seq<char>, i: int) -> bool {
    char_is(s, i, '′') || char_is(s, i, '\'')
}

/// Whether position `i` holds the second mark `″` or its fallback `"`.
pub open spec fn second_mark(s: Seq<char>, i: int) -> bool {
    char_is(s, i, '″') || char_is(s, i, '"')
}

/// The fields of an angle `D+° D+′ D+(.D+)″` followed by the letter `plus`
/// or `minus`, before any check of their values. Gives the angle and the
/// position after the letter.
pub open spec fn readable_fields(s: Seq<char>, pos: int, plus: char, minus: char) -> Option<
    (AngleModel, int),
> {
    let d_end = run_end(s, pos);
    let m0 = d_end + 1;
    let m_end = run_end(s, m0);
    let s0 = m_end + 1;
    let s_end = run_end(s, s0);
    let (frac, f_end) = fraction_at(s, s_end);
    let letter = f_end + 1;
    if d_end == pos || !char_is(s, d_end, '°') || m_end == m0 || !minute_mark(s, m_end) || s_end
        == s0 || !second_mark(s, f_end) || !(char_is(s, letter, plus) || char_is(s, letter, minus)) {
        None
    } else {
        Some(
            (
                AngleModel {
                    negative: char_is(s, letter, minus),
                    degrees: number(s, pos, d_end),
                    minutes: number(s, m0, m_end),
                    seconds: number(s, s0, s_end),
                    fraction: frac,
                    fraction_of: FractionOf::Seconds,
                },
                letter + 1,
            ),
        )
    }
}

/// An angle whose fields read (see [`readable_fields`]), with minutes and
/// seconds below sixty and a magnitude of at most `bound` degrees.
pub open spec fn readable_angle(s: Seq<char>, pos: int, plus: char, minus: char, bound: nat) -> Option<
    (AngleModel, int),
> {
    match readable_fields(s, pos, plus, minus) {
        Some((a, e)) => if a.minutes >= 60 || a.seconds >= 60 || !a.within(bound) {
            None
        } else {
            Some((a, e))
        },
        None => None,
    }
}

/// A latitude: north `N`, south `S`, at most 90 degrees.
pub open spec fn readable_latitude(s: Seq<char>, pos: int) -> Option<(AngleModel, int)> {
    readable_angle(s, pos, 'N', 'S', 90)
}

/// A longitude: east `E`, west `W`, at most 180 degrees.
pub open spec fn readable_longitude(s: Seq<char>, pos: int) -> Option<(AngleModel, int)> {
    readable_angle(s, pos, 'E', 'W', 180)
}

/// An altitude: an optional `-` and an unsigned decimal numeral. A unit that
/// follows is not read.
pub open spec fn readable_altitude(s: Seq<char>, pos: int) -> Option<(AltitudeModel, int)> {
    let negative = char_is(s, pos, '-');
    let a = if negative {
        pos + 1
    } else {
        pos
    };
    match numeral_at(s, a) {
        Some((i, f, e)) => Some((AltitudeModel { negative, integer: i, fraction: f }, e)),
        None => None,
    }
}

/// Whether an altitude starts at `i`: a `-`, a digit or a point.
pub open spec fn altitude_starts(s: Seq<char>, i: int) -> bool {
    char_is(s, i, '-') || char_is(s, i, '.') || digit_at(s, i)
}

/// A latitude, one or more spaces, and a longitude.
pub open spec fn readable_latlong(s: Seq<char>, pos: int) -> Option<((AngleModel, AngleModel), int)> {
    match readable_latitude(s, pos) {
        Some((lat, p1)) => {
            let sp = space_end(s, p1);
            if sp == p1 {
                None
            } else {
                match readable_longitude(s, sp) {
                    Some((lon, p2)) => Some(((lat, lon), p2)),
                    None => None,
                }
            }
        },
        None => None,
    }
}

/// A latitude and longitude, one or more spaces, and an altitude.
pub open spec fn readable_latlong_altitude(s: Seq<char>, pos: int) -> Option<
    ((AngleModel, AngleModel), AltitudeModel, int),
> {
    match readable_latlong(s, pos) {
        Some((ll, p2)) => {
            let sp = space_end(s, p2);
            if sp == p2 {
                None
            } else {
                match readable_altitude(s, sp) {
                    Some((alt, e)) => Some((ll, alt, e)),
                    None => None,
                }
            }
        },
        None => None,
    }
}

/// A latitude and longitude, then an altitude where spaces and the start of
/// one follow. An altitude that starts and is malformed fails the whole.
pub open spec fn readable_latlong_altitude_option(s: Seq<char>, pos: int) -> Option<
    ((AngleModel, AngleModel), Option<AltitudeModel>, int),
> {
    match readable_latlong(s, pos) {
        Some((ll, p2)) => {
            let sp = space_end(s, p2);
            if sp > p2 && altitude_starts(s, sp) {
                match readable_altitude(s, sp) {
                    Some((alt, e)) => Some((ll, Some(alt), e)),
                    None => None,
                }
            } else {
                Some((ll, None, p2))
            }
        },
        None => None,
    }
}

/// Reads an angle at `pos` (see [`readable_angle`]).
pub fn angle_at(s: &Vec<char>, pos: usize, plus: char, minus: char, bound: u32) -> (r: Option<
    (Angle, usize),
>)
    requires
        pos <= s@.len(),
        bound <= 180,
    ensures
        r matches Some((a, e)) ==> readable_angle(s@, pos as int, plus, minus, bound as nat) == Some(
            (a@, e as int),
        ) && e <= s@.len() && a@.wf(),
        r is None <==> readable_angle(s@, pos as int, plus, minus, bound as nat) is None,
{
    if pos >= s.len() {
        return None;
    }
    let d_end = scan_digits(s, pos);
    proof {
        lemma_run_end(s@, pos as int);
    }
    if d_end == pos || !has_char(s, d_end, '°') {
        return None;
    }
    let m0 = d_end + 1;
    let m_end = scan_digits(s, m0);
    proof {
        lemma_run_end(s@, m0 as int);
    }
    if m_end == m0 || !(has_char(s, m_end, '′') || has_char(s, m_end, '\'')) {
        return None;
    }
    let s0 = m_end + 1;
    let s_end = scan_digits(s, s0);
    proof {
        lemma_run_end(s@, s0 as int);
    }
    if s_end == s0 {
        return None;
    }
    let (fraction, f_end) = read_fraction(s, s_end);
    if !(has_char(s, f_end, '″') || has_char(s, f_end, '"')) {
        return None;
    }
    let letter = f_end + 1;
    let negative = has_char(s, letter, minus);
    if !(has_char(s, letter, plus) || negative) {
        return None;
    }
    let degrees = read_number(s, pos, d_end, 1000);
    let minutes = read_number(s, m0, m_end, 1000);
    let seconds = read_number(s, s0, s_end, 1000);
    if minutes >= 60 || seconds >= 60 {
        return None;
    }
    let ghost spec_a = AngleModel {
        negative: char_is(s@, letter as int, minus),
        degrees: number(s@, pos as int, d_end as int),
        minutes: number(s@, m0 as int, m_end as int),
        seconds: number(s@, s0 as int, s_end as int),
        fraction: fraction@,
        fraction_of: FractionOf::Seconds,
    };
    let a = Angle { negative, degrees, minutes, seconds, fraction, fraction_of: FractionOf::Seconds };
    proof {
        crate::coord::lemma_within(a@, bound as nat);
        crate::coord::lemma_within(spec_a, bound as nat);
    }
    if !a.within_bound(bound) {
        return None;
    }
    assert(a@ == spec_a);
    Some((a, letter + 1))
}

/// Reads an altitude at `pos` (see [`readable_altitude`]).
pub fn altitude_at(s: &Vec<char>, pos: usize) -> (r: Option<(Altitude, usize)>)
    requires
        pos <= s@.len(),
    ensures
        r matches Some((a, e)) ==> readable_altitude(s@, pos as int) == Some((a@, e as int)) && e
            <= s@.len(),
        r is None <==> readable_altitude(s@, pos as int) is None,
{
    if pos >= s.len() {
        return None;
    }
    let negative = has_char(s, pos, '-');
    let a = if negative {
        pos + 1
    } else {
        pos
    };
    match read_numeral(s, a) {
        Some((integer, fraction, e)) => Some((Altitude { negative, integer, fraction }, e)),
        None => None,
    }
}

/// Reads a latitude, spaces and a longitude at `pos` (see [`readable_latlong`]).
pub fn latlong_at(s: &Vec<char>, pos: usize) -> (r: Option<((Angle, Angle), usize)>)
    requires
        pos <= s@.len(),
    ensures
        r matches Some((ll, e)) ==> readable_latlong(s@, pos as int) == Some(
            ((ll.0@, ll.1@), e as int),
        ) && e <= s@.len() && ll.0@.wf() && ll.1@.wf(),
        r is None <==> readable_latlong(s@, pos as int) is None,
{
    let (lat, p1) = match angle_at(s, pos, 'N', 'S', 90) {
        Some(x) => x,
        None => return None,
    };
    let sp = scan_spaces(s, p1);
    proof {
        lemma_space_end(s@, p1 as int);
    }
    if sp == p1 {
        return None;
    }
    match angle_at(s, sp, 'E', 'W', 180) {
        Some((lon, p2)) => Some(((lat, lon), p2)),
        None => None,
    }
}

/// Reads a latitude, a longitude and a required altitude at `pos`
/// (see [`readable_latlong_altitude`]).
pub fn latlong_altitude_at(s: &Vec<char>, pos: usize) -> (r: Option<((Angle, Angle), Altitude, usize)>)
    requires
        pos <= s@.len(),
    ensures
        r matches Some((ll, alt, e)) ==> readable_latlong_altitude(s@, pos as int) == Some(
            ((ll.0@, ll.1@), alt@, e as int),
        ) && e <= s@.len(),
        r is None <==> readable_latlong_altitude(s@, pos as int) is None,
{
    let (ll, p2) = match latlong_at(s, pos) {
        Some(x) => x,
        None => return None,
    };
    let sp = scan_spaces(s, p2);
    proof {
        lemma_space_end(s@, p2 as int);
    }
    if sp == p2 {
        return None;
    }
    match altitude_at(s, sp) {
        Some((alt, e)) => Some((ll, alt, e)),
        None => None,
    }
}

/// Reads a latitude, a longitude and an optional altitude at `pos`
/// (see [`readable_latlong_altitude_option`]).
pub fn latlong_altitude_option_at(s: &Vec<char>, pos: usize) -> (r: Option<
    ((Angle, Angle), Option<Altitude>, usize),
>)
    requires
        pos <= s@.len(),
    ensures
        r matches Some((ll, alt, e)) ==> readable_latlong_altitude_option(s@, pos as int) == Some(
            ((ll.0@, ll.1@), crate::coord::altitude_view(alt), e as int),
        ) && e <= s@.len() && ll.0@.wf() && ll.1@.wf(),
        r is None <==> readable_latlong_altitude_option(s@, pos as int) is None,
{
    let (ll, p2) = match latlong_at(s, pos) {
        Some(x) => x,
        None => return None,
    };
    let sp = scan_spaces(s, p2);
    proof {
        lemma_space_end(s@, p2 as int);
    }
    let starts = sp < s.len() && (s[sp] == '-' || s[sp] == '.' || ('0' <= s[sp] && s[sp] <= '9'));
    if sp > p2 && starts {
        match altitude_at(s, sp) {
            Some((alt, e)) => Some((ll, Some(alt), e)),
            None => None,
        }
    } else {
        Some((ll, None, p2))
    }
}

/// Whether `c` is an ASCII letter.
pub open spec fn is_letter(c: char) -> bool {
    ('a' <= c && c <= 'z') || ('A' <= c && c <= 'Z')
}

/// The end of the run of ASCII letters that starts at `pos`.
pub open spec fn letters_end(s: Seq<char>, pos: int) -> int
    decreases s.len() - pos,
{
    if 0 <= pos < s.len() && is_letter(s[pos]) {
        letters_end(s, pos + 1)
    } else {
        pos
    }
}

/// Parses a latitude at the start of `inp`: `50°40′46.461″N`.
/// Gives what follows it and the angle; fails beyond 90 degrees.
pub fn latitude_parser(inp: &str) -> (r: Result<(&str, Angle), ISO6709Error>)
    ensures
        match readable_latitude(inp@, 0) {
            Some((a, e)) => r matches Ok((rest, v)) && v@ == a && rest@ == inp@.subrange(
                e,
                inp@.len() as int,
            ),
            None => r is Err,
        },
{
    let s = chars_of(inp);
    match angle_at(&s, 0, 'N', 'S', 90) {
        Some((a, e)) => Ok((rest_of(inp, e), a)),
        None => Err(ISO6709Error::new("invalid human-readable latitude")),
    }
}

/// Parses a longitude at the start of `inp`: `95°48′26.533″W`.
/// Gives what follows it and the angle; fails beyond 180 degrees.
pub fn longitude_parser(inp: &str) -> (r: Result<(&str, Angle), ISO6709Error>)
    ensures
        match readable_longitude(inp@, 0) {
            Some((a, e)) => r matches Ok((rest, v)) && v@ == a && rest@ == inp@.subrange(
                e,
                inp@.len() as int,
            ),
            None => r is Err,
        },
{
    let s = chars_of(inp);
    match angle_at(&s, 0, 'E', 'W', 180) {
        Some((a, e)) => Ok((rest_of(inp, e), a)),
        None => Err(ISO6709Error::new("invalid human-readable longitude")),
    }
}

/// Parses an altitude at the start of `inp`: `-978.90`. A unit after it is
/// left in what follows.
pub fn altitude_parser(inp: &str) -> (r: Result<(&str, Altitude), ISO6709Error>)
    ensures
        match readable_altitude(inp@, 0) {
            Some((a, e)) => r matches Ok((rest, v)) && v@ == a && rest@ == inp@.subrange(
                e,
                inp@.len() as int,
            ),
            None => r is Err,
        },
{
    let s = chars_of(inp);
    match altitude_at(&s, 0) {
        Some((a, e)) => Ok((rest_of(inp, e), a)),
        None => Err(ISO6709Error::new("invalid altitude")),
    }
}

/// Parses the unit that follows an altitude: one or more ASCII letters.
/// Gives what follows it and the unit.
pub fn altitude_unit(inp: &str) -> (r: Result<(&str, &str), ISO6709Error>)
    ensures
        letters_end(inp@, 0) > 0 ==> (r matches Ok((rest, unit)) && unit@ == inp@.subrange(
            0,
            letters_end(inp@, 0),
        ) && rest@ == inp@.subrange(letters_end(inp@, 0), inp@.len() as int)),
        letters_end(inp@, 0) == 0 ==> r is Err,
{
    let s = chars_of(inp);
    let mut i: usize = 0;
    while i < s.len() && (('a' <= s[i] && s[i] <= 'z') || ('A' <= s[i] && s[i] <= 'Z'))
        invariant
            i <= s@.len(),
            letters_end(s@, i as int) == letters_end(s@, 0),
        decreases s@.len() - i,
    {
        i = i + 1;
    }
    if i == 0 {
        return Err(ISO6709Error::new("missing altitude unit"));
    }
    Ok((rest_of(inp, i), inp.substring_char(0, i)))
}

/// Parses a latitude, one or more spaces and a longitude at the start of `inp`.
pub fn latlong_parser(inp: &str) -> (r: Result<(&str, (Angle, Angle)), ISO6709Error>)
    ensures
        match readable_latlong(inp@, 0) {
            Some((ll, e)) => r matches Ok((rest, v)) && (v.0@, v.1@) == ll && rest@
                == inp@.subrange(e, inp@.len() as int),
            None => r is Err,
        },
{
    let s = chars_of(inp);
    match latlong_at(&s, 0) {
        Some((ll, e)) => Ok((rest_of(inp, e), ll)),
        None => Err(ISO6709Error::new("invalid human-readable latitude and longitude")),
    }
}

/// Parses a latitude, a longitude, one or more spaces and an altitude at the
/// start of `inp`.
pub fn latlong_altitude_parser(inp: &str) -> (r: Result<(&str, ((Angle, Angle), Altitude)), ISO6709Error>)
    ensures
        match readable_latlong_altitude(inp@, 0) {
            Some((ll, alt, e)) => r matches Ok((rest, v)) && (v.0.0@, v.0.1@) == ll && v.1@ == alt
                && rest@ == inp@.subrange(e, inp@.len() as int),
            None => r is Err,
        },
{
    let s = chars_of(inp);
    match latlong_altitude_at(&s, 0) {
        Some((ll, alt, e)) => Ok((rest_of(inp, e), (ll, alt))),
        None => Err(ISO6709Error::new("invalid human-readable coordinate with altitude")),
    }
}

/// Parses a latitude, a longitude and, where one follows, an altitude at the
/// start of `inp`.
pub fn latlong_altitude_option_parser(inp: &str) -> (r: Result<
    (&str, ((Angle, Angle), Option<Altitude>)),
    ISO6709Error,
>)
    ensures
        match readable_latlong_altitude_option(inp@, 0) {
            Some((ll, alt, e)) => r matches Ok((rest, v)) && (v.0.0@, v.0.1@) == ll
                && crate::coord::altitude_view(v.1) == alt && rest@ == inp@.subrange(
                e,
                inp@.len() as int,
            ),
            None => r is Err,
        },
{
    let s = chars_of(inp);
    match latlong_altitude_option_at(&s, 0) {
        Some((ll, alt, e)) => Ok((rest_of(inp, e), (ll, alt))),
        None => Err(ISO6709Error::new("invalid human-readable coordinate")),
    }
}

} // verus!
