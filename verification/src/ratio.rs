//! Exact fractions, for rates that are compared but never rounded.

use vstd::prelude::*;

verus! {

/// A non-negative fraction, kept exactly as numerator and denominator.
#[derive(Debug, Clone, Copy, PartialEq, Eq, Structural)]
pub struct Ratio {
    pub numerator: u128,
    pub denominator: u128,
}

impl Ratio {
    /// The fraction is defined and lies between zero and one.
    pub open spec fn within_unit(self) -> bool {
        self.denominator > 0 && self.numerator <= self.denominator
    }

    /// The fraction equals one.
    pub open spec fn is_one(self) -> bool {
        self.denominator > 0 && self.numerator == self.denominator
    }

    /// The fraction equals zero.
    pub open spec fn is_zero(self) -> bool {
        self.denominator > 0 && self.numerator == 0
    }

    /// `self >= other`, for fractions with positive denominators.
    pub open spec fn at_least(self, other: Ratio) -> bool {
        self.numerator * other.denominator >= other.numerator * self.denominator
    }

    /// `self > other`, for fractions with positive denominators.
    pub open spec fn exceeds(self, other: Ratio) -> bool {
        self.numerator * other.denominator > other.numerator * self.denominator
    }

    /// `self >= points / 10000`, for a fraction with a positive denominator.
    pub open spec fn at_least_basis_points(self, points: u32) -> bool {
        self.numerator * 10000 >= points * self.denominator
    }
}

/// `part / whole`, or `when_empty / 1` for an empty whole.
pub open spec fn fraction(part: u64, whole: u64, when_empty: u64) -> Ratio {
    if whole == 0 {
        Ratio { numerator: when_empty as u128, denominator: 1 }
    } else {
        Ratio { numerator: part as u128, denominator: whole as u128 }
    }
}

/// `part / whole`, or `when_empty / 1` for an empty whole.
pub fn fraction_of(part: u64, whole: u64, when_empty: u64) -> (r: Ratio)
    ensures
        r == fraction(part, whole, when_empty),
{
    if whole == 0 {
        Ratio { numerator: when_empty as u128, denominator: 1 }
    } else {
        Ratio { numerator: part as u128, denominator: whole as u128 }
    }
}

/// A fraction that exceeds one that is at least a third exceeds the third.
pub proof fn lemma_exceeds_at_least(a: Ratio, b: Ratio, c: Ratio)
    requires
        a.denominator > 0,
        b.denominator > 0,
        c.denominator > 0,
        a.exceeds(b),
        b.at_least(c),
    ensures
        a.exceeds(c),
{
    let (an, ad) = (a.numerator as int, a.denominator as int);
    let (bn, bd) = (b.numerator as int, b.denominator as int);
    let (cn, cd) = (c.numerator as int, c.denominator as int);
    assert(an * cd > cn * ad) by (nonlinear_arith)
        requires
            ad > 0,
            bd > 0,
            cd > 0,
            an >= 0,
            bn >= 0,
            cn >= 0,
            an * bd > bn * ad,
            bn * cd >= cn * bd,
    {
        assert((an * bd) * cd >= (bn * ad + 1) * cd);
        assert((bn * cd) * ad >= (cn * bd) * ad);
        assert((an * cd) * bd == (an * bd) * cd);
        assert((bn * ad + 1) * cd == (bn * cd) * ad + cd);
        assert((cn * bd) * ad == (cn * ad) * bd);
        assert((an * cd) * bd > (cn * ad) * bd);
    }
}

} // verus!
