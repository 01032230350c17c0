use vstd::prelude::*;

use crate::text::{all_decimal, pow10, value_of};

verus! {

/// The field that the decimal fraction of an angle extends.
#[derive(Clone, Copy, Debug, PartialEq, Eq, Structural)]
pub enum FractionOf {
    Degrees,
    Minutes,
    Seconds,
}

/// An angle as written: a sign, whole degrees, minutes and seconds, and the
/// decimal digits that extend the last field written.
///
/// Its value in degrees is
/// `degrees + minutes / 60 + seconds / 3600 + 0.fraction * (1, 1/60 or 1/3600)`,
/// negated where `negative` holds.
#[derive(Clone, Debug, PartialEq, Eq)]
pub struct Angle {
    pub negative: bool,
    pub degrees: u32,
    pub minutes: u32,
    pub seconds: u32,
    pub fraction: Vec<u8>,
    pub fraction_of: FractionOf,
}

/// The mathematical content of an [`Angle`].
pub struct AngleModel {
    pub negative: bool,
    pub degrees: nat,
    pub minutes: nat,
    pub seconds: nat,
    pub fraction: Seq<u8>,
    pub fraction_of: FractionOf,
}

impl View for Angle {
    type V = AngleModel;

    open spec fn view(&self) -> AngleModel {
        AngleModel {
            negative: self.negative,
            degrees: self.degrees as nat,
            minutes: self.minutes as nat,
            seconds: self.seconds as nat,
            fraction: self.fraction@,
            fraction_of: self.fraction_of,
        }
    }
}

/// The number of arcseconds in one unit of the field that a fraction extends.
pub open spec fn unit_of(f: FractionOf) -> nat {
    match f {
        FractionOf::Degrees => 3600,
        FractionOf::Minutes => 60,
        FractionOf::Seconds => 1,
    }
}

impl AngleModel {
    /// Minutes and seconds below sixty, fraction digits decimal, and no field
    /// written after the one that the fraction extends.
    pub open spec fn wf(self) -> bool {
        &&& self.minutes < 60
        &&& self.seconds < 60
        &&& all_decimal(self.fraction)
        &&& (self.fraction_of == FractionOf::Degrees ==> self.minutes == 0 && self.seconds == 0)
        &&& (self.fraction_of == FractionOf::Minutes ==> self.seconds == 0)
    }

    /// The denominator of the value: degrees are `numerator / denominator`.
    pub open spec fn denominator(self) -> nat {
        3600 * pow10(self.fraction.len())
    }

    /// The magnitude, in units of `1 / denominator` degrees.
    pub open spec fn magnitude(self) -> nat {
        ((self.degrees * 60 + self.minutes) * 60 + self.seconds) * pow10(self.fraction.len())
            + value_of(self.fraction) * unit_of(self.fraction_of)
    }

    /// The signed value, in units of `1 / denominator` degrees.
    pub open spec fn numerator(self) -> int {
        if self.negative {
            -(self.magnitude() as int)
        } else {
            self.magnitude() as int
        }
    }

    /// Whether the magnitude is at most `bound` degrees.
    pub open spec fn within(self, bound: nat) -> bool {
        self.magnitude() <= bound * self.denominator()
    }

    /// Whether `self` and `other` denote the same number of degrees.
    pub open spec fn same_value(self, other: AngleModel) -> bool {
        self.numerator() * other.denominator() == other.numerator() * self.denominator()
    }
}

/// An altitude as written: a sign and the decimal digits before and after the point.
#[derive(Clone, Debug, PartialEq, Eq)]
pub struct Altitude {
    pub negative: bool,
    pub integer: Vec<u8>,
    pub fraction: Vec<u8>,
}

/// The mathematical content of an [`Altitude`].
pub struct AltitudeModel {
    pub negative: bool,
    pub integer: Seq<u8>,
    pub fraction: Seq<u8>,
}

impl View for Altitude {
    type V = AltitudeModel;

    open spec fn view(&self) -> AltitudeModel {
        AltitudeModel { negative: self.negative, integer: self.integer@, fraction: self.fraction@ }
    }
}

impl AltitudeModel {
    /// The denominator of the value: metres are `numerator / denominator`.
    pub open spec fn denominator(self) -> nat {
        pow10(self.fraction.len())
    }

    /// The signed value, in units of `1 / denominator` metres.
    pub open spec fn numerator(self) -> int {
        let m = value_of(self.integer) * pow10(self.fraction.len()) + value_of(self.fraction);
        if self.negative {
            -(m as int)
        } else {
            m as int
        }
    }
}

/// A parsed coordinate: latitude and longitude, and the altitude where one was given.
#[derive(Clone, Debug, PartialEq, Eq)]
pub struct ISO6709Coord {
    pub lat: Angle,
    pub lon: Angle,
    pub altitude: Option<Altitude>,
}

/// The mathematical content of an [`ISO6709Coord`].
pub struct CoordModel {
    pub lat: AngleModel,
    pub lon: AngleModel,
    pub altitude: Option<AltitudeModel>,
}

/// The content of an optional altitude.
pub open spec fn altitude_view(a: Option<Altitude>) -> Option<AltitudeModel> {
    match a {
        Some(x) => Some(x@),
        None => None,
    }
}

impl View for ISO6709Coord {
    type V = CoordModel;

    open spec fn view(&self) -> CoordModel {
        CoordModel { lat: self.lat@, lon: self.lon@, altitude: altitude_view(self.altitude) }
    }
}

/// The value of decimal digits is below ten to the number of digits, and zero
/// exactly when every digit is.
pub proof fn lemma_value_bound(d: Seq<u8>)
    requires
        all_decimal(d),
    ensures
        value_of(d) < pow10(d.len()),
        value_of(d) == 0 <==> (forall|i: int| 0 <= i < d.len() ==> d[i] == 0),
    decreases d.len(),
{
    if d.len() > 0 {
        let init = d.drop_last();
        assert(all_decimal(init)) by {
            assert forall|i: int| 0 <= i < init.len() implies #[trigger] init[i] <= 9 by {
                assert(init[i] == d[i]);
            }
        }
        lemma_value_bound(init);
        assert(d.last() <= 9) by {
            assert(d[d.len() - 1] <= 9);
        }
        let v = value_of(init);
        let p = pow10(init.len());
        assert(pow10(d.len()) == 10 * p);
        assert(v * 10 + d.last() < 10 * p) by (nonlinear_arith)
            requires
                v < p,
                d.last() <= 9,
        ;
        if value_of(d) == 0 {
            assert(v == 0 && d.last() == 0);
            assert forall|i: int| 0 <= i < d.len() implies d[i] == 0 by {
                if i < d.len() - 1 {
                    assert(d[i] == init[i]);
                }
            }
        }
        if forall|i: int| 0 <= i < d.len() ==> d[i] == 0 {
            assert forall|i: int| 0 <= i < init.len() implies init[i] == 0 by {
                assert(init[i] == d[i]);
            }
            assert(d[d.len() - 1] == 0);
        }
    }
}

pub proof fn lemma_pow10_positive(n: nat)
    ensures
        pow10(n) > 0,
    decreases n,
{
    if n > 0 {
        lemma_pow10_positive((n - 1) as nat);
    }
}

/// On a well-formed angle the bound is decided by the fields: the degrees are
/// below the bound, or equal to it with nothing after them.
pub proof fn lemma_within(a: AngleModel, bound: nat)
    requires
        a.wf(),
    ensures
        a.within(bound) <==> (a.degrees < bound || (a.degrees == bound && a.minutes == 0
            && a.seconds == 0 && value_of(a.fraction) == 0)),
{
    lemma_value_bound(a.fraction);
    lemma_pow10_positive(a.fraction.len());
    let p = pow10(a.fraction.len());
    let f = value_of(a.fraction);
    let u = unit_of(a.fraction_of);
    let m = a.minutes;
    let s = a.seconds;
    let d = a.degrees;
    let r = (m * 60 + s) * p + f * u;
    assert(r < 3600 * p) by {
        if u == 3600 {
            assert(f * u < 3600 * p) by (nonlinear_arith)
                requires
                    f < p,
                    u == 3600,
            ;
        } else if u == 60 {
            assert(m * 60 * p + f * u < 3600 * p) by (nonlinear_arith)
                requires
                    m <= 59,
                    f < p,
                    u == 60,
            ;
        } else {
            assert((m * 60 + s) * p + f * u < 3600 * p) by (nonlinear_arith)
                requires
                    m * 60 + s <= 3599,
                    f < p,
                    u == 1,
            ;
        }
    }
    assert(a.magnitude() == d * 3600 * p + r) by (nonlinear_arith)
        requires
            a.magnitude() == ((d * 60 + m) * 60 + s) * p + f * u,
            r == (m * 60 + s) * p + f * u,
    ;
    assert(r == 0 <==> (m == 0 && s == 0 && f == 0)) by (nonlinear_arith)
        requires
            p > 0,
            r == (m * 60 + s) * p + f * u,
            u > 0,
    ;
    assert(a.within(bound) <==> d * 3600 * p + r <= bound * (3600 * p));
    if d < bound {
        assert(d * 3600 * p + r <= bound * (3600 * p)) by (nonlinear_arith)
            requires
                d < bound,
                r < 3600 * p,
        ;
    } else if d > bound {
        assert(d * 3600 * p + r > bound * (3600 * p)) by (nonlinear_arith)
            requires
                d > bound,
                p > 0,
        ;
    } else {
        assert(d * 3600 * p == bound * (3600 * p)) by (nonlinear_arith)
            requires
                d == bound,
        ;
    }
}

impl Angle {
    /// Whether the magnitude of this angle is at most `bound` degrees.
    pub fn within_bound(&self, bound: u32) -> (r: bool)
        requires
            self@.wf(),
        ensures
            r == self@.within(bound as nat),
    {
        proof {
            lemma_within(self@, bound as nat);
            lemma_value_bound(self.fraction@);
        }
        if self.degrees < bound {
            return true;
        }
        if self.degrees > bound || self.minutes != 0 || self.seconds != 0 {
            return false;
        }
        let mut i: usize = 0;
        while i < self.fraction.len()
            invariant
                i <= self.fraction@.len(),
                forall|j: int| 0 <= j < i ==> self.fraction@[j] == 0,
                self@.within(bound as nat) <==> value_of(self.fraction@) == 0,
                value_of(self.fraction@) == 0 <==> (forall|j: int|
                    0 <= j < self.fraction@.len() ==> self.fraction@[j] == 0),
            decreases self.fraction@.len() - i,
        {
            if self.fraction[i] != 0 {
                return false;
            }
            i = i + 1;
        }
        true
    }
}

} // verus!
