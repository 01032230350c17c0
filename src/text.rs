use vstd::prelude::*;
use vstd::string::*;

verus! {

/// Whether `c` is an ASCII decimal digit.
pub open spec fn is_digit(c: char) -> bool {
    '0' <= c && c <= '9'
}

/// The numeric value of a digit character.
pub open spec fn digit_of(c: char) -> u8 {
    (c as u32 - '0' as u32) as u8
}

/// The digit values of a run of digit characters.
pub open spec fn digits_of(s: Seq<char>) -> Seq<u8> {
    s.map_values(|c: char| digit_of(c))
}

/// Whether every element of `d` is a decimal digit value.
pub open spec fn all_decimal(d: Seq<u8>) -> bool {
    forall|i: int| 0 <= i < d.len() ==> #[trigger] d[i] <= 9
}

/// The number written by the decimal digits `d`, most significant first.
pub open spec fn value_of(d: Seq<u8>) -> nat
    decreases d.len(),
{
    if d.len() == 0 {
        0
    } else {
        value_of(d.drop_last()) * 10 + d.last() as nat
    }
}

/// Ten to the power `n`.
pub open spec fn pow10(n: nat) -> nat
    decreases n,
{
    if n == 0 {
        1
    } else {
        10 * pow10((n - 1) as nat)
    }
}

/// Whether position `i` of `s` holds the character `c`.
pub open spec fn char_is(s: Seq<char>, i: int, c: char) -> bool {
    0 <= i < s.len() && s[i] == c
}

/// Whether position `i` of `s` holds a digit.
pub open spec fn digit_at(s: Seq<char>, i: int) -> bool {
    0 <= i < s.len() && is_digit(s[i])
}

/// The end of the run of digits that starts at `pos`.
pub open spec fn run_end(s: Seq<char>, pos: int) -> int
    decreases s.len() - pos,
{
    if digit_at(s, pos) {
        run_end(s, pos + 1)
    } else {
        pos
    }
}

/// Whether all of `s[from..to]` are digits.
pub open spec fn all_digits(s: Seq<char>, from: int, to: int) -> bool {
    forall|i: int| from <= i < to ==> #[trigger] digit_at(s, i)
}

/// The number written by the digits `s[from..to]`.
pub open spec fn number(s: Seq<char>, from: int, to: int) -> nat {
    value_of(digits_of(s.subrange(from, to)))
}

/// A fixed-width field of exactly `width` digits at `pos`, and its value.
pub open spec fn fixed_field(s: Seq<char>, pos: int, width: int) -> Option<nat> {
    if 0 <= pos && pos + width <= s.len() && all_digits(s, pos, pos + width) {
        Some(number(s, pos, pos + width))
    } else {
        None
    }
}

/// The optional decimal fraction at `pos`: a `.` followed by at least one digit.
/// Gives its digits and the position after it; where there is none, no digits and `pos`.
pub open spec fn fraction_at(s: Seq<char>, pos: int) -> (Seq<u8>, int) {
    let e = run_end(s, pos + 1);
    if char_is(s, pos, '.') && e > pos + 1 {
        (digits_of(s.subrange(pos + 1, e)), e)
    } else {
        (Seq::empty(), pos)
    }
}

/// Whether `c` separates fields in the human-readable notation (space or tab).
pub open spec fn is_space(c: char) -> bool {
    c == ' ' || c == '\t'
}

/// Whether `c` is whitespace that may surround a whole coordinate.
pub open spec fn is_blank(c: char) -> bool {
    c == ' ' || c == '\t' || c == '\r' || c == '\n'
}

/// The end of the run of spaces and tabs that starts at `pos`.
pub open spec fn space_end(s: Seq<char>, pos: int) -> int
    decreases s.len() - pos,
{
    if 0 <= pos < s.len() && is_space(s[pos]) {
        space_end(s, pos + 1)
    } else {
        pos
    }
}

/// The end of the run of blanks that starts at `pos`.
pub open spec fn blank_end(s: Seq<char>, pos: int) -> int
    decreases s.len() - pos,
{
    if 0 <= pos < s.len() && is_blank(s[pos]) {
        blank_end(s, pos + 1)
    } else {
        pos
    }
}

pub proof fn lemma_run_end(s: Seq<char>, pos: int)
    requires
        0 <= pos <= s.len(),
    ensures
        pos <= run_end(s, pos) <= s.len(),
        all_digits(s, pos, run_end(s, pos)),
        !digit_at(s, run_end(s, pos)),
    decreases s.len() - pos,
{
    if digit_at(s, pos) {
        lemma_run_end(s, pos + 1);
    }
}

pub proof fn lemma_run_end_ge(s: Seq<char>, pos: int)
    ensures
        run_end(s, pos) >= pos,
        fraction_at(s, pos).1 >= pos,
    decreases s.len() - pos,
{
    if digit_at(s, pos) {
        lemma_run_end_ge(s, pos + 1);
    }
    if char_is(s, pos, '.') {
        lemma_run_end_ge(s, pos + 1);
    }
}

pub proof fn lemma_space_end(s: Seq<char>, pos: int)
    requires
        0 <= pos <= s.len(),
    ensures
        pos <= space_end(s, pos) <= s.len(),
    decreases s.len() - pos,
{
    if pos < s.len() && is_space(s[pos]) {
        lemma_space_end(s, pos + 1);
    }
}

pub proof fn lemma_blank_end(s: Seq<char>, pos: int)
    requires
        0 <= pos <= s.len(),
    ensures
        pos <= blank_end(s, pos) <= s.len(),
    decreases s.len() - pos,
{
    if pos < s.len() && is_blank(s[pos]) {
        lemma_blank_end(s, pos + 1);
    }
}

/// The digits of one more character extend the value by one place.
pub proof fn lemma_number_step(s: Seq<char>, from: int, to: int)
    requires
        0 <= from <= to < s.len(),
    ensures
        number(s, from, to + 1) == number(s, from, to) * 10 + digit_of(s[to]) as nat,
{
    let a = digits_of(s.subrange(from, to + 1));
    assert(a.drop_last() =~= digits_of(s.subrange(from, to)));
}

pub proof fn lemma_digits_decimal(s: Seq<char>, from: int, to: int)
    requires
        0 <= from <= to <= s.len(),
        all_digits(s, from, to),
    ensures
        all_decimal(digits_of(s.subrange(from, to))),
{
    assert forall|i: int| 0 <= i < to - from implies #[trigger] digits_of(
        s.subrange(from, to),
    )[i] <= 9 by {
        assert(digit_at(s, from + i));
    }
}

/// Scans the run of digits at `pos` and returns where it ends.
pub fn scan_digits(s: &Vec<char>, pos: usize) -> (end: usize)
    requires
        pos <= s@.len(),
    ensures
        end as int == run_end(s@, pos as int),
{
    let mut i: usize = pos;
    while i < s.len() && '0' <= s[i] && s[i] <= '9'
        invariant
            pos <= i <= s@.len(),
            run_end(s@, i as int) == run_end(s@, pos as int),
        decreases s@.len() - i,
    {
        i = i + 1;
    }
    i
}

/// Scans the run of spaces and tabs at `pos` and returns where it ends.
pub fn scan_spaces(s: &Vec<char>, pos: usize) -> (end: usize)
    requires
        pos <= s@.len(),
    ensures
        end as int == space_end(s@, pos as int),
{
    let mut i: usize = pos;
    while i < s.len() && (s[i] == ' ' || s[i] == '\t')
        invariant
            pos <= i <= s@.len(),
            space_end(s@, i as int) == space_end(s@, pos as int),
        decreases s@.len() - i,
    {
        i = i + 1;
    }
    i
}

/// Scans the run of blanks at `pos` and returns where it ends.
pub fn scan_blanks(s: &Vec<char>, pos: usize) -> (end: usize)
    requires
        pos <= s@.len(),
    ensures
        end as int == blank_end(s@, pos as int),
{
    let mut i: usize = pos;
    while i < s.len() && (s[i] == ' ' || s[i] == '\t' || s[i] == '\r' || s[i] == '\n')
        invariant
            pos <= i <= s@.len(),
            blank_end(s@, i as int) == blank_end(s@, pos as int),
        decreases s@.len() - i,
    {
        i = i + 1;
    }
    i
}

/// Whether position `i` of `s` holds `c`.
pub fn has_char(s: &Vec<char>, i: usize, c: char) -> (r: bool)
    ensures
        r == char_is(s@, i as int, c),
{
    i < s.len() && s[i] == c
}

/// The value of the digits `s[from..to]`, or `cap` where it is larger.
pub fn read_number(s: &Vec<char>, from: usize, to: usize, cap: u32) -> (v: u32)
    requires
        from <= to <= s@.len(),
        all_digits(s@, from as int, to as int),
        cap < 100_000_000,
    ensures
        v as nat == if number(s@, from as int, to as int) <= cap {
            number(s@, from as int, to as int)
        } else {
            cap as nat
        },
{
    let mut v: u32 = 0;
    let mut i: usize = from;
    assert(s@.subrange(from as int, from as int) =~= Seq::<char>::empty());
    assert(number(s@, from as int, from as int) == 0) by {
        assert(digits_of(s@.subrange(from as int, from as int)).len() == 0);
    }
    while i < to
        invariant
            from <= i <= to <= s@.len(),
            all_digits(s@, from as int, to as int),
            cap < 100_000_000,
            v as nat == if number(s@, from as int, i as int) <= cap {
                number(s@, from as int, i as int)
            } else {
                cap as nat
            },
        decreases to - i,
    {
        assert(digit_at(s@, i as int));
        proof {
            lemma_number_step(s@, from as int, i as int);
        }
        let d = (s[i] as u32) - ('0' as u32);
        let w = v * 10 + d;
        if w > cap {
            v = cap;
        } else {
            v = w;
        }
        i = i + 1;
    }
    v
}

/// The digit values of `s[from..to]`.
pub fn read_digits(s: &Vec<char>, from: usize, to: usize) -> (d: Vec<u8>)
    requires
        from <= to <= s@.len(),
        all_digits(s@, from as int, to as int),
    ensures
        d@ == digits_of(s@.subrange(from as int, to as int)),
{
    let mut d: Vec<u8> = Vec::new();
    let mut i: usize = from;
    while i < to
        invariant
            from <= i <= to <= s@.len(),
            all_digits(s@, from as int, to as int),
            d@ == digits_of(s@.subrange(from as int, i as int)),
        decreases to - i,
    {
        assert(digit_at(s@, i as int));
        let c = (s[i] as u32) - ('0' as u32);
        d.push(c as u8);
        i = i + 1;
        assert(d@ =~= digits_of(s@.subrange(from as int, i as int)));
    }
    d
}

/// The fixed-width field of `width` digits at `pos`, if there is one.
pub fn read_fixed(s: &Vec<char>, pos: usize, width: usize) -> (r: Option<u32>)
    requires
        width <= 3,
        pos <= s@.len(),
    ensures
        r matches Some(v) ==> fixed_field(s@, pos as int, width as int) == Some(v as nat),
        r is None <==> fixed_field(s@, pos as int, width as int) is None,
{
    if width > s.len() - pos {
        return None;
    }
    let end = pos + width;
    let mut i: usize = pos;
    while i < end
        invariant
            pos <= i <= end <= s@.len(),
            end == pos + width,
            all_digits(s@, pos as int, i as int),
        decreases end - i,
    {
        if !('0' <= s[i] && s[i] <= '9') {
            assert(!digit_at(s@, i as int));
            assert(!all_digits(s@, pos as int, end as int));
            return None;
        }
        i = i + 1;
    }
    proof {
        lemma_number_bound(s@, pos as int, end as int);
        reveal_with_fuel(pow10, 4);
    }
    Some(read_number(s, pos, end, 1000))
}

/// A field of at most three digits is below a thousand.
pub proof fn lemma_number_bound(s: Seq<char>, from: int, to: int)
    requires
        0 <= from <= to <= s.len(),
        to - from <= 3,
        all_digits(s, from, to),
    ensures
        number(s, from, to) < pow10((to - from) as nat),
    decreases to - from,
{
    reveal_with_fuel(pow10, 4);
    if to > from {
        lemma_number_bound(s, from, to - 1);
        lemma_number_step(s, from, to - 1);
        assert(digit_at(s, to - 1));
    } else {
        assert(digits_of(s.subrange(from, to)).len() == 0);
    }
}

/// The optional decimal fraction at `pos`: its digits and the position after it.
pub fn read_fraction(s: &Vec<char>, pos: usize) -> (r: (Vec<u8>, usize))
    requires
        pos <= s@.len(),
    ensures
        (r.0@, r.1 as int) == fraction_at(s@, pos as int),
        all_decimal(r.0@),
        pos <= r.1 <= s@.len(),
{
    if pos < s.len() && s[pos] == '.' {
        let e = scan_digits(s, pos + 1);
        proof {
            lemma_run_end(s@, pos + 1);
        }
        if e > pos + 1 {
            proof {
                lemma_digits_decimal(s@, pos + 1, e as int);
            }
            return (read_digits(s, pos + 1, e), e);
        }
    }
    (Vec::new(), pos)
}


/// An unsigned decimal numeral at `a`: the longest run of digits and points,
/// holding at least one digit and at most one point. Gives the digits before
/// and after the point and the position after the numeral.
pub open spec fn numeral_at(s: Seq<char>, a: int) -> Option<(Seq<u8>, Seq<u8>, int)> {
    let ie = run_end(s, a);
    let fe = run_end(s, ie + 1);
    if char_is(s, ie, '.') {
        if (ie > a || fe > ie + 1) && !char_is(s, fe, '.') {
            Some((digits_of(s.subrange(a, ie)), digits_of(s.subrange(ie + 1, fe)), fe))
        } else {
            None
        }
    } else if ie > a {
        Some((digits_of(s.subrange(a, ie)), Seq::empty(), ie))
    } else {
        None
    }
}

/// Reads the unsigned decimal numeral at `a`.
pub fn read_numeral(s: &Vec<char>, a: usize) -> (r: Option<(Vec<u8>, Vec<u8>, usize)>)
    requires
        a <= s@.len(),
    ensures
        r matches Some((i, f, e)) ==> numeral_at(s@, a as int) == Some((i@, f@, e as int)) && e
            <= s@.len(),
        r is None <==> numeral_at(s@, a as int) is None,
{
    let ie = scan_digits(s, a);
    proof {
        lemma_run_end(s@, a as int);
    }
    if ie < s.len() && s[ie] == '.' {
        let fe = scan_digits(s, ie + 1);
        proof {
            lemma_run_end(s@, ie + 1);
        }
        if (ie > a || fe > ie + 1) && !has_char(s, fe, '.') {
            let i = read_digits(s, a, ie);
            let f = read_digits(s, ie + 1, fe);
            Some((i, f, fe))
        } else {
            None
        }
    } else if ie > a {
        let i = read_digits(s, a, ie);
        Some((i, Vec::new(), ie))
    } else {
        None
    }
}

/// The characters of `s`, in order.
pub fn chars_of(s: &str) -> (v: Vec<char>)
    ensures
        v@ == s@,
{
    let n = s.unicode_len();
    let mut v: Vec<char> = Vec::new();
    let mut i: usize = 0;
    while i < n
        invariant
            i <= n,
            n == s@.len(),
            v@ == s@.subrange(0, i as int),
        decreases n - i,
    {
        v.push(s.get_char(i));
        i = i + 1;
        assert(v@ =~= s@.subrange(0, i as int));
    }
    assert(v@ =~= s@);
    v
}

/// What is left of `s` from character `pos` on.
pub fn rest_of(s: &str, pos: usize) -> (r: &str)
    requires
        pos <= s@.len(),
    ensures
        r@ == s@.subrange(pos as int, s@.len() as int),
{
    let n = s.unicode_len();
    s.substring_char(pos, n)
}

} // verus!
