//! Statements that hold of every input, proved over the grammars.
use vstd::prelude::*;

use crate::coord::{AltitudeModel, AngleModel, CoordModel, FractionOf};
use crate::human_readable::{
    altitude_starts, readable_altitude, readable_angle, readable_fields, readable_latitude,
    readable_latlong, readable_latlong_altitude_option, readable_longitude,
};
use crate::string_expression::{
    compact_angle, compact_latitude, compact_latlong, compact_longitude, compact_magnitude,
    negative_mark, positive_mark,
};
use crate::text::{
    all_digits, blank_end, char_is, digit_at, digits_of, fixed_field, fraction_at, is_blank,
    is_digit, is_space, lemma_run_end_ge, number, run_end, space_end, value_of,
};
use crate::{readable_coord, string_coord};

verus! {

/// A latitude that parses, in either notation, has a magnitude of at most
/// 90 degrees. Where its fields read, with minutes and seconds below sixty,
/// it parses exactly when its magnitude is at most 90 degrees: beyond that it
/// fails, and at the poles themselves it succeeds.
pub proof fn latitude_within_poles(s: Seq<char>, pos: int)
    ensures
        readable_latitude(s, pos) matches Some((a, _)) ==> a.magnitude() <= 90 * a.denominator(),
        compact_latitude(s, pos) matches Some((a, _)) ==> a.magnitude() <= 90 * a.denominator(),
        match readable_fields(s, pos, 'N', 'S') {
            Some((a, _)) => a.minutes < 60 && a.seconds < 60 ==> (readable_latitude(s, pos) is Some
                <==> a.magnitude() <= 90 * a.denominator()),
            None => readable_latitude(s, pos) is None,
        },
        positive_mark(s, pos, 'N') || negative_mark(s, pos, 'S') ==> match compact_magnitude(
            s,
            pos + 1,
            2,
        ) {
            Some((m, _)) => compact_latitude(s, pos) is Some <==> m.magnitude() <= 90
                * m.denominator(),
            None => compact_latitude(s, pos) is None,
        },
{
}

/// A longitude that parses, in either notation, has a magnitude of at most
/// 180 degrees. Where its fields read, with minutes and seconds below sixty,
/// it parses exactly when its magnitude is at most 180 degrees, east or west:
/// beyond that it fails, and at the antimeridian itself it succeeds.
pub proof fn longitude_within_antimeridian(s: Seq<char>, pos: int)
    ensures
        readable_longitude(s, pos) matches Some((a, _)) ==> a.magnitude() <= 180 * a.denominator(),
        compact_longitude(s, pos) matches Some((a, _)) ==> a.magnitude() <= 180 * a.denominator(),
        match readable_fields(s, pos, 'E', 'W') {
            Some((a, _)) => a.minutes < 60 && a.seconds < 60 ==> (readable_longitude(s, pos) is Some
                <==> a.magnitude() <= 180 * a.denominator()),
            None => readable_longitude(s, pos) is None,
        },
        positive_mark(s, pos, 'E') || negative_mark(s, pos, 'W') ==> match compact_magnitude(
            s,
            pos + 1,
            3,
        ) {
            Some((m, _)) => compact_longitude(s, pos) is Some <==> m.magnitude() <= 180
                * m.denominator(),
            None => compact_longitude(s, pos) is None,
        },
{
}

/// Minutes or seconds of sixty or more fail an angle, in either notation,
/// whatever the other fields hold. In the string representation the minute
/// field is the two digits after the degree field, and the second field the
/// two after those.
pub proof fn sixty_fails(
    s: Seq<char>,
    pos: int,
    plus: char,
    minus: char,
    width: int,
    bound: nat,
)
    ensures
        match readable_fields(s, pos, plus, minus) {
            Some((a, _)) => a.minutes >= 60 || a.seconds >= 60 ==> readable_angle(
                s,
                pos,
                plus,
                minus,
                bound,
            ) is None,
            None => true,
        },
        match fixed_field(s, pos + 1 + width, 2) {
            Some(m) => m >= 60 ==> compact_angle(s, pos, plus, minus, width, bound) is None,
            None => true,
        },
        match (fixed_field(s, pos + 1 + width, 2), fixed_field(s, pos + 3 + width, 2)) {
            (Some(_), Some(sec)) => sec >= 60 ==> compact_angle(s, pos, plus, minus, width, bound)
                is None,
            _ => true,
        },
{
}

/// `s1` and `s2` have one length and agree from position `k` on.
pub open spec fn agree_from(s1: Seq<char>, s2: Seq<char>, k: int) -> bool {
    s1.len() == s2.len() && forall|i: int| k <= i < s1.len() ==> s1[i] == s2[i]
}

proof fn lemma_run_end_agree(s1: Seq<char>, s2: Seq<char>, k: int, p: int)
    requires
        agree_from(s1, s2, k),
        k <= p,
    ensures
        run_end(s1, p) == run_end(s2, p),
    decreases s1.len() - p,
{
    if digit_at(s1, p) {
        lemma_run_end_agree(s1, s2, k, p + 1);
    }
}

proof fn lemma_fixed_field_agree(s1: Seq<char>, s2: Seq<char>, k: int, p: int, w: int)
    requires
        agree_from(s1, s2, k),
        k <= p,
        0 <= w,
    ensures
        fixed_field(s1, p, w) == fixed_field(s2, p, w),
{
    if 0 <= p && p + w <= s1.len() {
        assert(s1.subrange(p, p + w) =~= s2.subrange(p, p + w));
        assert(all_digits(s1, p, p + w) == all_digits(s2, p, p + w)) by {
            assert forall|i: int| p <= i < p + w implies digit_at(s1, i) == digit_at(s2, i) by {}
        }
    }
}

proof fn lemma_fraction_agree(s1: Seq<char>, s2: Seq<char>, k: int, p: int)
    requires
        agree_from(s1, s2, k),
        k <= p,
    ensures
        fraction_at(s1, p) == fraction_at(s2, p),
{
    lemma_run_end_agree(s1, s2, k, p + 1);
    let e = run_end(s1, p + 1);
    if char_is(s1, p, '.') && e > p + 1 {
        crate::text::lemma_run_end(s1, p + 1);
        assert(s1.subrange(p + 1, e) =~= s2.subrange(p + 1, e));
    }
}

proof fn lemma_magnitude_agree(s1: Seq<char>, s2: Seq<char>, k: int, p: int, w: int)
    requires
        agree_from(s1, s2, k),
        k <= p,
        0 <= w,
    ensures
        compact_magnitude(s1, p, w) == compact_magnitude(s2, p, w),
{
    lemma_fixed_field_agree(s1, s2, k, p, w);
    lemma_fixed_field_agree(s1, s2, k, p + w, 2);
    lemma_fixed_field_agree(s1, s2, k, p + w + 2, 2);
    lemma_fraction_agree(s1, s2, k, p + w);
    lemma_fraction_agree(s1, s2, k, p + w + 2);
    lemma_fraction_agree(s1, s2, k, p + w + 4);
}

/// With the same digits after it, a sign letter and the matching sign
/// character give the same angle, and the two hemispheres give the same
/// magnitude with opposite signs.
pub proof fn hemispheres_mirror(
    s: Seq<char>,
    pos: int,
    plus: char,
    minus: char,
    width: int,
    bound: nat,
)
    requires
        0 <= pos < s.len(),
        0 <= width,
        plus != minus,
        plus != '-',
        plus != '+',
        minus != '+',
        minus != '-',
    ensures
        compact_angle(s.update(pos, plus), pos, plus, minus, width, bound) == compact_angle(
            s.update(pos, '+'),
            pos,
            plus,
            minus,
            width,
            bound,
        ),
        compact_angle(s.update(pos, minus), pos, plus, minus, width, bound) == compact_angle(
            s.update(pos, '-'),
            pos,
            plus,
            minus,
            width,
            bound,
        ),
        match (
            compact_angle(s.update(pos, plus), pos, plus, minus, width, bound),
            compact_angle(s.update(pos, minus), pos, plus, minus, width, bound),
        ) {
            (Some((a, e)), Some((b, f))) => e == f && !a.negative && b.negative && a.magnitude()
                == b.magnitude() && a.denominator() == b.denominator() && a.numerator()
                == -b.numerator(),
            (None, None) => true,
            _ => false,
        },
{
    let sp = s.update(pos, plus);
    let sq = s.update(pos, '+');
    let sm = s.update(pos, minus);
    let sn = s.update(pos, '-');
    lemma_magnitude_agree(sp, sq, pos + 1, pos + 1, width);
    lemma_magnitude_agree(sp, sm, pos + 1, pos + 1, width);
    lemma_magnitude_agree(sm, sn, pos + 1, pos + 1, width);
    assert(char_is(sp, pos, plus) && char_is(sq, pos, '+') && char_is(sm, pos, minus) && char_is(
        sn,
        pos,
        '-',
    ));
}

/// The hemispheres of a latitude in the string representation: `N` and `+`
/// agree, `S` and `-` agree, and the two give opposite values.
pub proof fn latitude_hemispheres_mirror(s: Seq<char>, pos: int)
    requires
        0 <= pos < s.len(),
    ensures
        compact_latitude(s.update(pos, 'N'), pos) == compact_latitude(s.update(pos, '+'), pos),
        compact_latitude(s.update(pos, 'S'), pos) == compact_latitude(s.update(pos, '-'), pos),
        match (compact_latitude(s.update(pos, 'N'), pos), compact_latitude(s.update(pos, 'S'), pos)) {
            (Some((a, e)), Some((b, f))) => e == f && a.numerator() == -b.numerator()
                && a.denominator() == b.denominator(),
            (None, None) => true,
            _ => false,
        },
{
    hemispheres_mirror(s, pos, 'N', 'S', 2, 90);
}

/// The hemispheres of a longitude in the string representation: `E` and `+`
/// agree, `W` and `-` agree, and the two give opposite values.
pub proof fn longitude_hemispheres_mirror(s: Seq<char>, pos: int)
    requires
        0 <= pos < s.len(),
    ensures
        compact_longitude(s.update(pos, 'E'), pos) == compact_longitude(s.update(pos, '+'), pos),
        compact_longitude(s.update(pos, 'W'), pos) == compact_longitude(s.update(pos, '-'), pos),
        match (
            compact_longitude(s.update(pos, 'E'), pos),
            compact_longitude(s.update(pos, 'W'), pos),
        ) {
            (Some((a, e)), Some((b, f))) => e == f && a.numerator() == -b.numerator()
                && a.denominator() == b.denominator(),
            (None, None) => true,
            _ => false,
        },
{
    hemispheres_mirror(s, pos, 'E', 'W', 3, 180);
}


/// `s2` is `s1` moved right by `l` places, with blanks before it and blanks after it.
pub open spec fn padded(s1: Seq<char>, s2: Seq<char>, l: int) -> bool {
    &&& 0 <= l
    &&& s2.len() >= s1.len() + l
    &&& forall|i: int| 0 <= i < s1.len() ==> s2[i + l] == #[trigger] s1[i]
    &&& forall|j: int| 0 <= j < l ==> is_blank(#[trigger] s2[j])
    &&& forall|j: int| s1.len() + l <= j < s2.len() ==> is_blank(#[trigger] s2[j])
}

proof fn lemma_padded_char(s1: Seq<char>, s2: Seq<char>, l: int, i: int, c: char)
    requires
        padded(s1, s2, l),
        0 <= i,
        !is_blank(c),
    ensures
        char_is(s2, i + l, c) == char_is(s1, i, c),
        digit_at(s2, i + l) == digit_at(s1, i),
        is_space_at(s2, i + l) == is_space_at(s1, i) || (i >= s1.len() && is_space_at(s2, i + l)),
{
    if i < s1.len() {
        assert(s2[i + l] == s1[i]);
    } else if i + l < s2.len() {
        assert(is_blank(s2[i + l]));
    }
}

/// Whether position `i` of `s` holds a space or a tab.
pub open spec fn is_space_at(s: Seq<char>, i: int) -> bool {
    0 <= i < s.len() && is_space(s[i])
}

proof fn lemma_padded_run_end(s1: Seq<char>, s2: Seq<char>, l: int, p: int)
    requires
        padded(s1, s2, l),
        0 <= p,
    ensures
        run_end(s2, p + l) == run_end(s1, p) + l,
    decreases s1.len() - p,
{
    lemma_padded_char(s1, s2, l, p, '0');
    if digit_at(s1, p) {
        lemma_padded_run_end(s1, s2, l, p + 1);
    }
}

proof fn lemma_padded_range(s1: Seq<char>, s2: Seq<char>, l: int, a: int, b: int)
    requires
        padded(s1, s2, l),
        0 <= a <= b <= s1.len(),
    ensures
        s2.subrange(a + l, b + l) == s1.subrange(a, b),
{
    assert forall|i: int| 0 <= i < b - a implies s2.subrange(a + l, b + l)[i] == s1.subrange(
        a,
        b,
    )[i] by {
        assert(s2[a + i + l] == s1[a + i]);
    }
    assert(s2.subrange(a + l, b + l) =~= s1.subrange(a, b));
}

proof fn lemma_padded_fraction(s1: Seq<char>, s2: Seq<char>, l: int, p: int)
    requires
        padded(s1, s2, l),
        0 <= p,
    ensures
        fraction_at(s2, p + l) == (fraction_at(s1, p).0, fraction_at(s1, p).1 + l),
{
    lemma_padded_char(s1, s2, l, p, '.');
    lemma_padded_run_end(s1, s2, l, p + 1);
    let e = run_end(s1, p + 1);
    if char_is(s1, p, '.') && e > p + 1 {
        crate::text::lemma_run_end(s1, p + 1);
        lemma_padded_range(s1, s2, l, p + 1, e);
    }
}

proof fn lemma_padded_fields(s1: Seq<char>, s2: Seq<char>, l: int, p: int, plus: char, minus: char)
    requires
        padded(s1, s2, l),
        0 <= p,
        !is_blank(plus),
        !is_blank(minus),
    ensures
        readable_fields(s2, p + l, plus, minus) == match readable_fields(s1, p, plus, minus) {
            Some((a, e)) => Some((a, e + l)),
            None => None::<(AngleModel, int)>,
        },
{
    let d_end = run_end(s1, p);
    let m0 = d_end + 1;
    let m_end = run_end(s1, m0);
    let s0 = m_end + 1;
    let s_end = run_end(s1, s0);
    let f_end = fraction_at(s1, s_end).1;
    let letter = f_end + 1;
    lemma_fields_ge(s1, p);
    lemma_padded_run_end(s1, s2, l, p);
    lemma_padded_char(s1, s2, l, d_end, '°');
    lemma_padded_run_end(s1, s2, l, m0);
    lemma_padded_char(s1, s2, l, m_end, '′');
    lemma_padded_char(s1, s2, l, m_end, '\'');
    lemma_padded_run_end(s1, s2, l, s0);
    lemma_padded_fraction(s1, s2, l, s_end);
    lemma_padded_char(s1, s2, l, f_end, '″');
    lemma_padded_char(s1, s2, l, f_end, '"');
    lemma_padded_char(s1, s2, l, letter, plus);
    lemma_padded_char(s1, s2, l, letter, minus);
    if readable_fields(s1, p, plus, minus) is Some {
        if p <= s1.len() {
            crate::text::lemma_run_end(s1, p);
        }
        crate::text::lemma_run_end(s1, m0);
        crate::text::lemma_run_end(s1, s0);
        lemma_padded_range(s1, s2, l, p, d_end);
        lemma_padded_range(s1, s2, l, m0, m_end);
        lemma_padded_range(s1, s2, l, s0, s_end);
    }
}

proof fn lemma_padded_space_end(s1: Seq<char>, s2: Seq<char>, l: int, p: int)
    requires
        padded(s1, s2, l),
        0 <= p <= s1.len(),
    ensures
        space_end(s1, p) < s1.len() ==> space_end(s2, p + l) == space_end(s1, p) + l,
        space_end(s1, p) >= s1.len() ==> space_end(s2, p + l) >= s1.len() + l,
        p < s1.len() ==> (space_end(s2, p + l) > p + l <==> space_end(s1, p) > p),
    decreases s1.len() - p,
{
    crate::text::lemma_space_end(s1, p);
    crate::text::lemma_space_end(s2, p + l);
    if p < s1.len() {
        assert(s2[p + l] == s1[p]);
        if is_space(s1[p]) {
            lemma_padded_space_end(s1, s2, l, p + 1);
        }
    }
}

proof fn lemma_padded_tail(s1: Seq<char>, s2: Seq<char>, l: int, q: int, plus: char, minus: char)
    requires
        padded(s1, s2, l),
        q >= s1.len() + l,
    ensures
        readable_fields(s2, q, plus, minus) is None,
        !altitude_starts(s2, q),
{
    if q < s2.len() {
        assert(is_blank(s2[q]));
    }
}

proof fn lemma_padded_latlong(s1: Seq<char>, s2: Seq<char>, l: int, p: int)
    requires
        padded(s1, s2, l),
        0 <= p,
    ensures
        readable_latlong(s2, p + l) == match readable_latlong(s1, p) {
            Some((ll, e)) => Some((ll, e + l)),
            None => None::<((AngleModel, AngleModel), int)>,
        },
{
    lemma_padded_fields(s1, s2, l, p, 'N', 'S');
    if let Some((lat, p1)) = readable_latitude(s1, p) {
        crate::text::lemma_run_end(s1, p);
        lemma_fields_end(s1, p, 'N', 'S');
        lemma_padded_space_end(s1, s2, l, p1);
        let sp = space_end(s1, p1);
        let sp2 = space_end(s2, p1 + l);
        crate::text::lemma_space_end(s1, p1);
        if sp < s1.len() {
            lemma_padded_fields(s1, s2, l, sp, 'E', 'W');
        } else {
            lemma_padded_tail(s1, s2, l, sp2, 'E', 'W');
            lemma_padded_tail(s1, s1, 0, sp, 'E', 'W');
        }
    }
}

/// A reading of fields ends within the text.
proof fn lemma_fields_end(s: Seq<char>, p: int, plus: char, minus: char)
    ensures
        readable_fields(s, p, plus, minus) matches Some((_, e)) ==> p < e <= s.len(),
{
    lemma_fields_ge(s, p);
}

/// The field ends of a reading come in order.
proof fn lemma_fields_ge(s: Seq<char>, p: int)
    ensures
        run_end(s, p) >= p,
        run_end(s, run_end(s, p) + 1) >= run_end(s, p) + 1,
        run_end(s, run_end(s, run_end(s, p) + 1) + 1) >= run_end(s, run_end(s, p) + 1) + 1,
        fraction_at(s, run_end(s, run_end(s, run_end(s, p) + 1) + 1)).1 >= run_end(
            s,
            run_end(s, run_end(s, p) + 1) + 1,
        ),
{
    let d_end = run_end(s, p);
    let m_end = run_end(s, d_end + 1);
    let s_end = run_end(s, m_end + 1);
    lemma_run_end_ge(s, p);
    lemma_run_end_ge(s, d_end + 1);
    lemma_run_end_ge(s, m_end + 1);
    lemma_run_end_ge(s, s_end);
}

proof fn lemma_padded_altitude(s1: Seq<char>, s2: Seq<char>, l: int, p: int)
    requires
        padded(s1, s2, l),
        0 <= p,
    ensures
        readable_altitude(s2, p + l) == match readable_altitude(s1, p) {
            Some((a, e)) => Some((a, e + l)),
            None => None::<(AltitudeModel, int)>,
        },
        altitude_starts(s2, p + l) == altitude_starts(s1, p),
{
    lemma_padded_char(s1, s2, l, p, '-');
    lemma_padded_char(s1, s2, l, p, '.');
    let a = if char_is(s1, p, '-') {
        p + 1
    } else {
        p
    };
    let ie = run_end(s1, a);
    lemma_run_end_ge(s1, a);
    lemma_run_end_ge(s1, ie + 1);
    lemma_padded_run_end(s1, s2, l, a);
    lemma_padded_char(s1, s2, l, ie, '.');
    lemma_padded_run_end(s1, s2, l, ie + 1);
    let fe = run_end(s1, ie + 1);
    lemma_padded_char(s1, s2, l, fe, '.');
    if a <= s1.len() {
        crate::text::lemma_run_end(s1, a);
        if ie < s1.len() {
            crate::text::lemma_run_end(s1, ie + 1);
            lemma_padded_range(s1, s2, l, ie + 1, fe);
        }
        lemma_padded_range(s1, s2, l, a, ie);
    }
}

proof fn lemma_padded_option(s1: Seq<char>, s2: Seq<char>, l: int, p: int)
    requires
        padded(s1, s2, l),
        0 <= p,
    ensures
        readable_latlong_altitude_option(s2, p + l) == match readable_latlong_altitude_option(
            s1,
            p,
        ) {
            Some((ll, alt, e)) => Some((ll, alt, e + l)),
            None => None::<((AngleModel, AngleModel), Option<AltitudeModel>, int)>,
        },
{
    lemma_padded_latlong(s1, s2, l, p);
    if let Some((ll, p2)) = readable_latlong(s1, p) {
        lemma_latlong_end(s1, p);
        lemma_padded_space_end(s1, s2, l, p2);
        let sp = space_end(s1, p2);
        let sp2 = space_end(s2, p2 + l);
        crate::text::lemma_space_end(s1, p2);
        if sp < s1.len() {
            lemma_padded_altitude(s1, s2, l, sp);
        } else {
            lemma_padded_tail(s1, s2, l, sp2, 'E', 'W');
            lemma_padded_tail(s1, s1, 0, sp, 'E', 'W');
        }
    }
}

/// A reading of a latitude and longitude ends within the text.
proof fn lemma_latlong_end(s: Seq<char>, p: int)
    ensures
        readable_latlong(s, p) matches Some((_, e)) ==> p < e <= s.len(),
{
    lemma_fields_end(s, p, 'N', 'S');
    if let Some((_, p1)) = readable_latitude(s, p) {
        assert(digit_at(s, p));
        crate::text::lemma_space_end(s, p1);
        lemma_fields_end(s, space_end(s, p1), 'E', 'W');
    }
}


proof fn lemma_padded_blank_end(s1: Seq<char>, s2: Seq<char>, l: int, p: int)
    requires
        padded(s1, s2, l),
        0 <= p <= s1.len(),
    ensures
        blank_end(s1, p) < s1.len() ==> blank_end(s2, p + l) == blank_end(s1, p) + l,
        blank_end(s1, p) >= s1.len() ==> blank_end(s2, p + l) >= s1.len() + l,
    decreases s1.len() - p,
{
    crate::text::lemma_blank_end(s1, p);
    crate::text::lemma_blank_end(s2, p + l);
    if p < s1.len() {
        assert(s2[p + l] == s1[p]);
        if is_blank(s1[p]) {
            lemma_padded_blank_end(s1, s2, l, p + 1);
        }
    }
}

proof fn lemma_blank_prefix(s2: Seq<char>, l: int, j: int)
    requires
        0 <= j <= l <= s2.len(),
        forall|i: int| 0 <= i < l ==> is_blank(#[trigger] s2[i]),
    ensures
        blank_end(s2, j) == blank_end(s2, l),
    decreases l - j,
{
    if j < l {
        assert(is_blank(s2[j]));
        lemma_blank_prefix(s2, l, j + 1);
    }
}

/// Blanks (spaces, tabs, line ends) before and after a whole human-readable
/// coordinate do not change what it parses to.
pub proof fn readable_ignores_surrounding_blanks(s: Seq<char>, before: Seq<char>, after: Seq<char>)
    requires
        forall|i: int| 0 <= i < before.len() ==> is_blank(#[trigger] before[i]),
        forall|i: int| 0 <= i < after.len() ==> is_blank(#[trigger] after[i]),
    ensures
        readable_coord(before + s + after) == readable_coord(s),
{
    let s2 = before + s + after;
    let l = before.len() as int;
    assert forall|i: int| 0 <= i < s.len() implies s2[i + l] == #[trigger] s[i] by {}
    assert forall|j: int| 0 <= j < l implies is_blank(#[trigger] s2[j]) by {
        assert(s2[j] == before[j]);
    }
    assert forall|j: int| s.len() + l <= j < s2.len() implies is_blank(#[trigger] s2[j]) by {
        assert(s2[j] == after[j - l - s.len()]);
    }
    assert(padded(s, s2, l));
    assert(padded(s, s, 0)) by {
        assert forall|i: int| 0 <= i < s.len() implies s[i + 0] == #[trigger] s[i] by {}
    }
    crate::text::lemma_blank_end(s, 0);
    lemma_padded_blank_end(s, s2, l, 0);
    lemma_blank_prefix(s2, l, 0);
    let k = blank_end(s, 0);
    if k < s.len() {
        lemma_padded_option(s, s2, l, k);
    } else {
        let q = blank_end(s2, 0);
        lemma_padded_tail(s, s2, l, q, 'N', 'S');
        lemma_padded_tail(s, s, 0, k, 'N', 'S');
    }
}


/// The digits of one angle, as both notations write it: degrees, two-digit
/// minutes and seconds, and the decimal fraction of the seconds (empty where
/// there is none).
pub struct DmsDigits {
    pub negative: bool,
    pub degrees: Seq<char>,
    pub minutes: Seq<char>,
    pub seconds: Seq<char>,
    pub fraction: Seq<char>,
}

/// Whether every character of `t` is a digit.
pub open spec fn digit_text(t: Seq<char>) -> bool {
    forall|i: int| 0 <= i < t.len() ==> is_digit(#[trigger] t[i])
}

impl DmsDigits {
    /// Digits in each field, `width` of them for the degrees and two for the
    /// minutes and the seconds.
    pub open spec fn wf(self, width: nat) -> bool {
        &&& self.degrees.len() == width
        &&& self.minutes.len() == 2
        &&& self.seconds.len() == 2
        &&& digit_text(self.degrees)
        &&& digit_text(self.minutes)
        &&& digit_text(self.seconds)
        &&& digit_text(self.fraction)
    }

    /// The angle that the digits denote.
    pub open spec fn angle(self) -> AngleModel {
        AngleModel {
            negative: self.negative,
            degrees: value_of(digits_of(self.degrees)),
            minutes: value_of(digits_of(self.minutes)),
            seconds: value_of(digits_of(self.seconds)),
            fraction: digits_of(self.fraction),
            fraction_of: FractionOf::Seconds,
        }
    }

    /// The decimal fraction as written: nothing, or a point and its digits.
    pub open spec fn fraction_text(self) -> Seq<char> {
        if self.fraction.len() == 0 {
            Seq::empty()
        } else {
            seq!['.'] + self.fraction
        }
    }

    /// The human-readable form, with the hemisphere letters `plus` and `minus`.
    #[verifier::opaque]
    pub open spec fn readable_text(self, plus: char, minus: char) -> Seq<char> {
        self.degrees + seq!['°'] + self.minutes + seq!['′'] + self.seconds + self.fraction_text()
            + seq!['″', if self.negative {
            minus
        } else {
            plus
        }]
    }

    /// The string-representation form.
    #[verifier::opaque]
    pub open spec fn string_text(self) -> Seq<char> {
        seq![if self.negative {
            '-'
        } else {
            '+'
        }] + self.degrees + self.minutes + self.seconds + self.fraction_text()
    }
}

/// A run of digits `t` at `a`, with no digit after it, ends after `t` and
/// has the value of `t`.
proof fn lemma_run_at(s: Seq<char>, a: int, t: Seq<char>)
    requires
        0 <= a,
        a + t.len() <= s.len(),
        s.subrange(a, a + t.len()) == t,
        digit_text(t),
        !digit_at(s, a + t.len()),
    ensures
        run_end(s, a) == a + t.len(),
        all_digits(s, a, a + t.len()),
        number(s, a, a + t.len()) == value_of(digits_of(t)),
    decreases t.len(),
{
    if t.len() > 0 {
        assert(s[a] == t[0]);
        assert(s.subrange(a + 1, a + t.len()) =~= t.drop_first());
        lemma_run_at(s, a + 1, t.drop_first());
        assert forall|i: int| a <= i < a + t.len() implies #[trigger] digit_at(s, i) by {
            assert(s[i] == t[i - a]);
        }
    }
}

/// A text `t` that stands in `s` at `a`.
pub open spec fn stands_at(s: Seq<char>, a: int, t: Seq<char>) -> bool {
    0 <= a && a + t.len() <= s.len() && s.subrange(a, a + t.len()) == t
}

proof fn lemma_stands_split(s: Seq<char>, a: int, t: Seq<char>, u: Seq<char>)
    requires
        stands_at(s, a, t + u),
    ensures
        stands_at(s, a, t),
        stands_at(s, a + t.len(), u),
{
    let w = s.subrange(a, a + t.len() + u.len());
    assert forall|i: int| 0 <= i < t.len() implies s.subrange(a, a + t.len())[i] == t[i] by {
        assert(w[i] == (t + u)[i]);
    }
    assert(s.subrange(a, a + t.len()) =~= t);
    assert forall|i: int| 0 <= i < u.len() implies s.subrange(
        a + t.len(),
        a + t.len() + u.len(),
    )[i] == u[i] by {
        assert(w[t.len() + i] == (t + u)[t.len() + i]);
    }
    assert(s.subrange(a + t.len(), a + t.len() + u.len()) =~= u);
}

proof fn lemma_stands_char(s: Seq<char>, a: int, t: Seq<char>, i: int)
    requires
        stands_at(s, a, t),
        0 <= i < t.len(),
    ensures
        s[a + i] == t[i],
{
    assert(s.subrange(a, a + t.len())[i] == s[a + i]);
}

proof fn lemma_fraction_text(s: Seq<char>, a: int, x: DmsDigits)
    requires
        stands_at(s, a, x.fraction_text()),
        digit_text(x.fraction),
        !digit_at(s, a + x.fraction_text().len()),
        !char_is(s, a + x.fraction_text().len(), '.'),
    ensures
        fraction_at(s, a) == (digits_of(x.fraction), a + x.fraction_text().len()),
{
    if x.fraction.len() > 0 {
        lemma_stands_split(s, a, seq!['.'], x.fraction);
        lemma_stands_char(s, a, seq!['.'], 0);
        lemma_run_at(s, a + 1, x.fraction);
    }
}

proof fn lemma_readable_text(s: Seq<char>, a: int, x: DmsDigits, plus: char, minus: char)
    requires
        stands_at(s, a, x.readable_text(plus, minus)),
        x.degrees.len() > 0,
        x.minutes.len() > 0,
        x.seconds.len() > 0,
        digit_text(x.degrees),
        digit_text(x.minutes),
        digit_text(x.seconds),
        digit_text(x.fraction),
        plus != minus,
    ensures
        readable_fields(s, a, plus, minus) == Some((x.angle(), a + x.readable_text(plus, minus).len())),
        digit_at(s, a),
{
    let letter = if x.negative {
        minus
    } else {
        plus
    };
    let f = x.fraction_text();
    let t1 = x.degrees + seq!['°'];
    let t2 = x.minutes + seq!['′'];
    let t3 = x.seconds + f;
    let t4 = seq!['″', letter];
    reveal(DmsDigits::readable_text);
    assert(x.readable_text(plus, minus) =~= t1 + (t2 + (t3 + t4)));
    lemma_stands_split(s, a, t1, t2 + (t3 + t4));
    let b = a + t1.len();
    lemma_stands_split(s, b, t2, t3 + t4);
    let c = b + t2.len();
    lemma_stands_split(s, c, t3, t4);
    let d = c + t3.len();
    lemma_stands_split(s, a, x.degrees, seq!['°']);
    lemma_stands_char(s, a + x.degrees.len(), seq!['°'], 0);
    lemma_run_at(s, a, x.degrees);
    lemma_stands_split(s, b, x.minutes, seq!['′']);
    lemma_stands_char(s, b + x.minutes.len(), seq!['′'], 0);
    lemma_run_at(s, b, x.minutes);
    assert(x.seconds + f + seq!['″'] =~= x.seconds + (f + seq!['″']));
    assert(t3 + t4 =~= x.seconds + (f + seq!['″']) + seq![letter]);
    lemma_stands_split(s, c, x.seconds + (f + seq!['″']), seq![letter]);
    lemma_stands_split(s, c, x.seconds, f + seq!['″']);
    let e = c + x.seconds.len();
    lemma_stands_char(s, e, f + seq!['″'], 0);
    if f.len() > 0 {
        assert((f + seq!['″'])[0] == '.');
    } else {
        assert((f + seq!['″'])[0] == '″');
    }
    lemma_run_at(s, c, x.seconds);
    lemma_stands_split(s, e, f, seq!['″']);
    lemma_stands_char(s, e + f.len(), seq!['″'], 0);
    lemma_fraction_text(s, e, x);
    lemma_stands_char(s, d, t4, 0);
    lemma_stands_char(s, d, t4, 1);
}

/// A fixed-width field `t` of digits at `a` reads as the value of `t`.
proof fn lemma_fixed_at(s: Seq<char>, a: int, t: Seq<char>)
    requires
        stands_at(s, a, t),
        digit_text(t),
    ensures
        fixed_field(s, a, t.len() as int) == Some(value_of(digits_of(t))),
{
    assert forall|i: int| a <= i < a + t.len() implies #[trigger] digit_at(s, i) by {
        lemma_stands_char(s, a, t, i - a);
    }
}

proof fn lemma_string_text(
    s: Seq<char>,
    a: int,
    x: DmsDigits,
    plus: char,
    minus: char,
    width: nat,
    bound: nat,
)
    requires
        stands_at(s, a, x.string_text()),
        x.wf(width),
        x.angle().minutes < 60,
        x.angle().seconds < 60,
        x.angle().within(bound),
        !digit_at(s, a + x.string_text().len()),
        !char_is(s, a + x.string_text().len(), '.'),
        minus != '+',
        plus != '-',
    ensures
        compact_angle(s, a, plus, minus, width as int, bound) == Some(
            (x.angle(), a + x.string_text().len()),
        ),
{
    let sign = seq![if x.negative {
        '-'
    } else {
        '+'
    }];
    let f = x.fraction_text();
    reveal(DmsDigits::string_text);
    assert(x.string_text() =~= sign + (x.degrees + (x.minutes + (x.seconds + f))));
    lemma_stands_split(s, a, sign, x.degrees + (x.minutes + (x.seconds + f)));
    lemma_stands_char(s, a, sign, 0);
    let b = a + 1;
    lemma_stands_split(s, b, x.degrees, x.minutes + (x.seconds + f));
    let c = b + width;
    lemma_stands_split(s, c, x.minutes, x.seconds + f);
    let d = c + 2;
    lemma_stands_split(s, d, x.seconds, f);
    lemma_fixed_at(s, b, x.degrees);
    lemma_fixed_at(s, c, x.minutes);
    lemma_fixed_at(s, d, x.seconds);
    lemma_fraction_text(s, d + 2, x);
}

proof fn lemma_readable_pair_at(r: Seq<char>, a: AngleModel, b: AngleModel, l1: int)
    requires
        0 <= l1,
        readable_latitude(r, 0) == Some((a, l1)),
        char_is(r, l1, ' '),
        digit_at(r, l1 + 1),
        readable_longitude(r, l1 + 1) == Some((b, r.len() as int)),
        digit_at(r, 0),
    ensures
        readable_coord(r) == Some((CoordModel { lat: a, lon: b, altitude: None })),
{
    let n = r.len() as int;
    assert(space_end(r, l1 + 1) == l1 + 1);
    assert(space_end(r, l1) == l1 + 1);
    assert(readable_latlong(r, 0) == Some(((a, b), n)));
    assert(space_end(r, n) == n);
    assert(blank_end(r, 0) == 0);
}

proof fn lemma_concat_stands(t: Seq<char>, u: Seq<char>)
    ensures
        stands_at(t + u, 0, t),
        stands_at(t + u, t.len() as int, u),
{
    assert((t + u).subrange(0, t.len() as int) =~= t);
    assert((t + u).subrange(t.len() as int, (t.len() + u.len()) as int) =~= u);
}

proof fn lemma_readable_pair(lat: DmsDigits, lon: DmsDigits)
    requires
        lat.wf(2),
        lon.wf(3),
        lat.angle().minutes < 60 && lat.angle().seconds < 60 && lat.angle().within(90),
        lon.angle().minutes < 60 && lon.angle().seconds < 60 && lon.angle().within(180),
    ensures
        readable_coord(lat.readable_text('N', 'S') + seq![' '] + lon.readable_text('E', 'W'))
            == Some((CoordModel { lat: lat.angle(), lon: lon.angle(), altitude: None })),
{
    let lt = lat.readable_text('N', 'S');
    let gt = lon.readable_text('E', 'W');
    let sp = seq![' '];
    let r = lt + sp + gt;
    let l1 = lt.len() as int;
    lemma_concat_stands(lt + sp, gt);
    lemma_concat_stands(lt, sp);
    assert(stands_at(r, 0, lt)) by {
        lemma_stands_split(r, 0, lt, sp);
    }
    assert(r[l1] == ' ') by {
        lemma_stands_split(r, 0, lt, sp);
        lemma_stands_char(r, l1, sp, 0);
    }
    lemma_readable_text(r, 0, lat, 'N', 'S');
    lemma_readable_text(r, l1 + 1, lon, 'E', 'W');
    lemma_readable_pair_at(r, lat.angle(), lon.angle(), l1);
}

proof fn lemma_string_first(x: DmsDigits)
    ensures
        x.string_text().len() > 0,
        x.string_text()[0] == (if x.negative {
            '-'
        } else {
            '+'
        }),
{
    reveal(DmsDigits::string_text);
}

proof fn lemma_string_pair_at(c: Seq<char>, a: AngleModel, b: AngleModel, k1: int)
    requires
        compact_latitude(c, 0) == Some((a, k1)),
        compact_longitude(c, k1) == Some((b, c.len() as int)),
        char_is(c, 0, '+') || char_is(c, 0, '-'),
    ensures
        string_coord(c) == Some((CoordModel { lat: a, lon: b, altitude: None })),
{
    assert(blank_end(c, 0) == 0);
    assert(compact_latlong(c, 0) == Some(((a, b), c.len() as int)));
}

proof fn lemma_string_pair(lat: DmsDigits, lon: DmsDigits)
    requires
        lat.wf(2),
        lon.wf(3),
        lat.angle().minutes < 60 && lat.angle().seconds < 60 && lat.angle().within(90),
        lon.angle().minutes < 60 && lon.angle().seconds < 60 && lon.angle().within(180),
    ensures
        string_coord(lat.string_text() + lon.string_text()) == Some(
            (CoordModel { lat: lat.angle(), lon: lon.angle(), altitude: None }),
        ),
{
    let ls = lat.string_text();
    let gs = lon.string_text();
    let c = ls + gs;
    let k1 = ls.len() as int;
    lemma_concat_stands(ls, gs);
    lemma_string_first(lat);
    lemma_string_first(lon);
    lemma_stands_char(c, k1, gs, 0);
    lemma_stands_char(c, 0, ls, 0);
    lemma_string_text(c, 0, lat, 'N', 'S', 2, 90);
    lemma_string_text(c, k1, lon, 'E', 'W', 3, 180);
    lemma_string_pair_at(c, lat.angle(), lon.angle(), k1);
}

/// A point written in both notations parses to the same latitude and
/// longitude: degrees, minutes and seconds with an optional decimal fraction
/// of the seconds, the latitude's degrees in two digits and the longitude's in
/// three, each within its bound.
pub proof fn notations_agree(lat: DmsDigits, lon: DmsDigits)
    requires
        lat.wf(2),
        lon.wf(3),
        lat.angle().minutes < 60 && lat.angle().seconds < 60 && lat.angle().within(90),
        lon.angle().minutes < 60 && lon.angle().seconds < 60 && lon.angle().within(180),
    ensures
        readable_coord(lat.readable_text('N', 'S') + seq![' '] + lon.readable_text('E', 'W'))
            == Some((CoordModel { lat: lat.angle(), lon: lon.angle(), altitude: None })),
        string_coord(lat.string_text() + lon.string_text()) == Some(
            (CoordModel { lat: lat.angle(), lon: lon.angle(), altitude: None }),
        ),
{
    lemma_readable_pair(lat, lon);
    lemma_string_pair(lat, lon);
}

} // verus!
