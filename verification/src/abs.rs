//! Lengths, ratios and fractions as exact integers.
//!
//! A length is counted in scaled points, `UNITS_PER_PT` to the point. The two
//! ends of the `i64` range stand for the infinite lengths, and arithmetic is
//! total: a sum that leaves the finite range becomes infinite, and an infinite
//! operand makes the result infinite. A finite result is therefore always the
//! exact integer result.

use vstd::prelude::*;

verus! {

/// The number of length units in one point.
pub const UNITS_PER_PT: i64 = 65536;

/// The raw value that stands for a ratio of one, and for one fraction.
pub const RATIO_ONE: i64 = 65536;

/// Brings an integer into the range of a raw length; what lies beyond the
/// finite range becomes the infinity on that side.
pub open spec fn clamp_raw(v: int) -> i64 {
    if v >= i64::MAX {
        i64::MAX
    } else if v <= i64::MIN {
        i64::MIN
    } else {
        v as i64
    }
}

/// Division that rounds towards zero, for a divisor other than zero.
pub open spec fn trunc_div(p: int, d: int) -> int {
    if p >= 0 && d > 0 {
        p / d
    } else if p >= 0 {
        -(p / (-d))
    } else if d > 0 {
        -((-p) / d)
    } else {
        (-p) / (-d)
    }
}

fn clamp_wide(v: i128) -> (r: i64)
    ensures
        r == clamp_raw(v as int),
{
    if v >= i64::MAX as i128 {
        i64::MAX
    } else if v <= i64::MIN as i128 {
        i64::MIN
    } else {
        v as i64
    }
}

fn trunc_div_wide(p: i128, d: i128) -> (r: i128)
    requires
        d != 0,
        i128::MIN < p,
        i128::MIN < d,
    ensures
        r == trunc_div(p as int, d as int),
{
    if p >= 0 && d > 0 {
        p / d
    } else if p >= 0 {
        let q: i128 = p / (-d);
        -q
    } else if d > 0 {
        let q: i128 = (-p) / d;
        -q
    } else {
        (-p) / (-d)
    }
}

/// An absolute length.
#[derive(Clone, Copy, Debug, PartialEq, Eq, Structural, Hash)]
pub struct Abs {
    pub raw: i64,
}

impl Abs {
    pub open spec fn spec_zero() -> Abs {
        Abs { raw: 0 }
    }

    pub open spec fn spec_inf() -> Abs {
        Abs { raw: i64::MAX }
    }

    pub open spec fn spec_pt(pt: i64) -> Abs {
        Abs { raw: clamp_raw(pt * UNITS_PER_PT) }
    }

    /// Neither of the two infinite lengths.
    pub open spec fn finite(self) -> bool {
        i64::MIN < self.raw < i64::MAX
    }

    /// The sum. Positive infinity absorbs everything, negative infinity
    /// everything else.
    pub open spec fn add_spec(self, other: Abs) -> Abs {
        if self.raw == i64::MAX || other.raw == i64::MAX {
            Abs { raw: i64::MAX }
        } else if self.raw == i64::MIN || other.raw == i64::MIN {
            Abs { raw: i64::MIN }
        } else {
            Abs { raw: clamp_raw(self.raw + other.raw) }
        }
    }

    pub open spec fn neg_spec(self) -> Abs {
        if self.raw == i64::MAX {
            Abs { raw: i64::MIN }
        } else if self.raw == i64::MIN {
            Abs { raw: i64::MAX }
        } else {
            Abs { raw: (-self.raw) as i64 }
        }
    }

    pub open spec fn sub_spec(self, other: Abs) -> Abs {
        self.add_spec(other.neg_spec())
    }

    pub open spec fn max_spec(self, other: Abs) -> Abs {
        if self.raw >= other.raw {
            self
        } else {
            other
        }
    }

    pub open spec fn min_spec(self, other: Abs) -> Abs {
        if self.raw <= other.raw {
            self
        } else {
            other
        }
    }

    /// Half of the length, rounded towards zero; an infinite length stays.
    pub open spec fn half_spec(self) -> Abs {
        if self.finite() {
            Abs { raw: trunc_div(self.raw as int, 2) as i64 }
        } else {
            self
        }
    }

    /// Whether a length of `other` has room in this one.
    pub open spec fn fits_spec(self, other: Abs) -> bool {
        self.raw >= other.raw
    }

    /// The zero length.
    pub fn zero() -> (r: Abs)
        ensures
            r == Abs::spec_zero(),
    {
        Abs { raw: 0 }
    }

    /// The infinite length.
    pub fn inf() -> (r: Abs)
        ensures
            r == Abs::spec_inf(),
    {
        Abs { raw: i64::MAX }
    }

    /// A length from its raw units.
    pub fn raw(raw: i64) -> (r: Abs)
        ensures
            r.raw == raw,
    {
        Abs { raw }
    }

    /// A length of whole points.
    pub fn pt(pt: i64) -> (r: Abs)
        ensures
            r == Abs::spec_pt(pt),
    {
        assert(UNITS_PER_PT == 65536);
        Abs { raw: clamp_wide(pt as i128 * 65536) }
    }

    /// The raw units of the length.
    pub fn to_raw(self) -> (r: i64)
        ensures
            r == self.raw,
    {
        self.raw
    }

    pub fn is_zero(self) -> (r: bool)
        ensures
            r == (self.raw == 0),
    {
        self.raw == 0
    }

    pub fn is_finite(self) -> (r: bool)
        ensures
            r == self.finite(),
    {
        i64::MIN < self.raw && self.raw < i64::MAX
    }

    pub fn plus(self, other: Abs) -> (r: Abs)
        ensures
            r == self.add_spec(other),
    {
        if self.raw == i64::MAX || other.raw == i64::MAX {
            Abs { raw: i64::MAX }
        } else if self.raw == i64::MIN || other.raw == i64::MIN {
            Abs { raw: i64::MIN }
        } else {
            Abs { raw: clamp_wide(self.raw as i128 + other.raw as i128) }
        }
    }

    pub fn neg(self) -> (r: Abs)
        ensures
            r == self.neg_spec(),
    {
        if self.raw == i64::MAX {
            Abs { raw: i64::MIN }
        } else if self.raw == i64::MIN {
            Abs { raw: i64::MAX }
        } else {
            Abs { raw: -self.raw }
        }
    }

    pub fn minus(self, other: Abs) -> (r: Abs)
        ensures
            r == self.sub_spec(other),
    {
        self.plus(other.neg())
    }

    pub fn max(self, other: Abs) -> (r: Abs)
        ensures
            r == self.max_spec(other),
    {
        if self.raw >= other.raw {
            self
        } else {
            other
        }
    }

    pub fn min(self, other: Abs) -> (r: Abs)
        ensures
            r == self.min_spec(other),
    {
        if self.raw <= other.raw {
            self
        } else {
            other
        }
    }

    /// Raises the length to `other` where that is larger.
    pub fn set_max(&mut self, other: Abs)
        ensures
            *final(self) == old(self).max_spec(other),
    {
        if other.raw > self.raw {
            self.raw = other.raw;
        }
    }

    pub fn half(self) -> (r: Abs)
        ensures
            r == self.half_spec(),
    {
        if self.is_finite() {
            let q: i128 = trunc_div_wide(self.raw as i128, 2);
            Abs { raw: q as i64 }
        } else {
            self
        }
    }

    /// Whether a length of `other` has room in this one.
    pub fn fits(self, other: Abs) -> (r: bool)
        ensures
            r == self.fits_spec(other),
    {
        self.raw >= other.raw
    }

    /// Lengths are exact, so two of them are approximately equal only when
    /// they are equal.
    pub fn approx_eq(self, other: Abs) -> (r: bool)
        ensures
            r == (self == other),
    {
        self.raw == other.raw
    }
}

/// A ratio of a whole, `RATIO_ONE` raw units to the full whole.
#[derive(Clone, Copy, Debug, PartialEq, Eq, Structural, Hash)]
pub struct Ratio {
    pub raw: i64,
}

impl Ratio {
    /// The part of `whole` that the ratio names; zero where the whole, or the
    /// part, is not finite.
    pub open spec fn of_spec(self, whole: Abs) -> Abs {
        let part = Abs { raw: clamp_raw(trunc_div(whole.raw * self.raw, RATIO_ONE as int)) };
        if whole.finite() && part.finite() {
            part
        } else {
            Abs::spec_zero()
        }
    }

    pub fn zero() -> (r: Ratio)
        ensures
            r.raw == 0,
    {
        Ratio { raw: 0 }
    }

    pub fn one() -> (r: Ratio)
        ensures
            r.raw == RATIO_ONE,
    {
        Ratio { raw: RATIO_ONE }
    }

    pub fn raw(raw: i64) -> (r: Ratio)
        ensures
            r.raw == raw,
    {
        Ratio { raw }
    }

    pub fn is_zero(self) -> (r: bool)
        ensures
            r == (self.raw == 0),
    {
        self.raw == 0
    }

    pub fn is_positive(self) -> (r: bool)
        ensures
            r == (self.raw > 0),
    {
        self.raw > 0
    }

    pub fn of(self, whole: Abs) -> (r: Abs)
        ensures
            r == self.of_spec(whole),
    {
        assert(-(0x4000_0000_0000_0000_0000_0000_0000_0000int) <= whole.raw * self.raw
            <= 0x4000_0000_0000_0000_0000_0000_0000_0000int) by (nonlinear_arith)
            requires
                -0x8000_0000_0000_0000int <= whole.raw <= 0x7fff_ffff_ffff_ffffint,
                -0x8000_0000_0000_0000int <= self.raw <= 0x7fff_ffff_ffff_ffffint,
        ;
        let product: i128 = whole.raw as i128 * self.raw as i128;
        let part = Abs { raw: clamp_wide(trunc_div_wide(product, RATIO_ONE as i128)) };
        if whole.is_finite() && part.is_finite() {
            part
        } else {
            Abs::zero()
        }
    }
}

/// A length with a part relative to a whole and an absolute part.
#[derive(Clone, Copy, Debug, PartialEq, Eq, Structural, Hash)]
pub struct Rel {
    pub rel: Ratio,
    pub abs: Abs,
}

impl Rel {
    pub open spec fn relative_to_spec(self, whole: Abs) -> Abs {
        self.rel.of_spec(whole).add_spec(self.abs)
    }

    pub open spec fn spec_from_abs(abs: Abs) -> Rel {
        Rel { rel: Ratio { raw: 0 }, abs }
    }

    pub fn new(rel: Ratio, abs: Abs) -> (r: Rel)
        ensures
            r == (Rel { rel, abs }),
    {
        Rel { rel, abs }
    }

    /// A relative length with no relative part.
    pub fn from_abs(abs: Abs) -> (r: Rel)
        ensures
            r == Rel::spec_from_abs(abs),
    {
        Rel { rel: Ratio { raw: 0 }, abs }
    }

    pub fn zero() -> (r: Rel)
        ensures
            r == Rel::spec_from_abs(Abs::spec_zero()),
    {
        Rel { rel: Ratio { raw: 0 }, abs: Abs { raw: 0 } }
    }

    /// The length against a whole.
    pub fn relative_to(self, whole: Abs) -> (r: Abs)
        ensures
            r == self.relative_to_spec(whole),
    {
        self.rel.of(whole).plus(self.abs)
    }
}

/// A fraction of the space that is left over.
#[derive(Clone, Copy, Debug, PartialEq, Eq, Structural, Hash)]
pub struct Fr {
    pub raw: i64,
}

impl Fr {
    pub open spec fn add_spec(self, other: Fr) -> Fr {
        Fr { raw: clamp_raw(self.raw + other.raw) }
    }

    /// The share of `remaining` that falls to this fraction out of `total`
    /// fractions: never negative, and zero where the total is zero or the
    /// remaining length is not finite.
    pub open spec fn share_spec(self, total: Fr, remaining: Abs) -> Abs {
        if total.raw != 0 && remaining.finite() {
            (Abs { raw: clamp_raw(trunc_div(self.raw * remaining.raw, total.raw as int)) }).max_spec(
                Abs::spec_zero(),
            )
        } else {
            Abs::spec_zero()
        }
    }

    pub fn zero() -> (r: Fr)
        ensures
            r.raw == 0,
    {
        Fr { raw: 0 }
    }

    pub fn one() -> (r: Fr)
        ensures
            r.raw == RATIO_ONE,
    {
        Fr { raw: RATIO_ONE }
    }

    pub fn raw(raw: i64) -> (r: Fr)
        ensures
            r.raw == raw,
    {
        Fr { raw }
    }

    pub fn is_positive(self) -> (r: bool)
        ensures
            r == (self.raw > 0),
    {
        self.raw > 0
    }

    pub fn plus(self, other: Fr) -> (r: Fr)
        ensures
            r == self.add_spec(other),
    {
        Fr { raw: clamp_wide(self.raw as i128 + other.raw as i128) }
    }

    pub fn share(self, total: Fr, remaining: Abs) -> (r: Abs)
        ensures
            r == self.share_spec(total, remaining),
    {
        if total.raw != 0 && remaining.is_finite() {
            assert(-(0x4000_0000_0000_0000_0000_0000_0000_0000int) <= self.raw * remaining.raw
                <= 0x4000_0000_0000_0000_0000_0000_0000_0000int) by (nonlinear_arith)
                requires
                    -0x8000_0000_0000_0000int <= self.raw <= 0x7fff_ffff_ffff_ffffint,
                    -0x8000_0000_0000_0000int <= remaining.raw <= 0x7fff_ffff_ffff_ffffint,
            ;
            let product: i128 = self.raw as i128 * remaining.raw as i128;
            let part = Abs { raw: clamp_wide(trunc_div_wide(product, total.raw as i128)) };
            part.max(Abs::zero())
        } else {
            Abs::zero()
        }
    }
}

/// A relative length without a relative part is its absolute part,
/// whatever the whole.
pub proof fn lemma_from_abs(abs: Abs, whole: Abs)
    ensures
        Rel::spec_from_abs(abs).relative_to_spec(whole) == abs,
{
    assert(whole.raw * 0 == 0);
}

/// The difference grows with what is taken from and shrinks with what is
/// taken away.
pub proof fn lemma_sub_monotone(a: Abs, b: Abs, c: Abs, d: Abs)
    requires
        a.raw <= c.raw,
        d.raw <= b.raw,
    ensures
        a.sub_spec(b).raw <= c.sub_spec(d).raw,
{
}

} // verus!
