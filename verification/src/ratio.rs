//! Exact nonnegative rationals.
//!
//! Distances between patterns and the matching threshold are ratios of small
//! integers (matching tokens over total tokens), so they are kept exact as a
//! numerator/denominator pair and compared by cross-multiplication.

use vstd::prelude::*;

verus! {

/// A nonnegative rational number `num / den`.
///
/// Values are compared by cross-multiplication and never reduced; a zero
/// denominator is never produced by this library's own functions.
#[derive(Debug, Clone, Copy, PartialEq, Eq, Structural)]
pub struct Ratio {
    pub num: u64,
    pub den: u64,
}

/// `a <= b` as rationals, by cross-multiplication.
pub open spec fn ratio_le_spec(a: Ratio, b: Ratio) -> bool {
    a.num * b.den <= b.num * a.den
}

/// The product of two values no larger than `u64::MAX` fits in a `u128`.
pub proof fn lemma_mul_fits_u128(a: int, b: int)
    requires
        0 <= a <= u64::MAX,
        0 <= b <= u64::MAX,
    ensures
        a * b <= u128::MAX as int,
{
    assert(a * b <= (u64::MAX as int) * (u64::MAX as int)) by (nonlinear_arith)
        requires
            0 <= a <= u64::MAX,
            0 <= b <= u64::MAX,
    ;
    assert((u64::MAX as int) * (u64::MAX as int) <= u128::MAX as int) by (nonlinear_arith);
}

impl Ratio {
    /// The rational `num / den`.
    pub fn new(num: u64, den: u64) -> (r: Ratio)
        ensures
            r == (Ratio { num, den }),
    {
        Ratio { num, den }
    }

    /// `self <= other` as rationals.
    pub fn le(&self, other: &Ratio) -> (r: bool)
        ensures
            r == ratio_le_spec(*self, *other),
    {
        proof {
            lemma_mul_fits_u128(self.num as int, other.den as int);
            lemma_mul_fits_u128(other.num as int, self.den as int);
        }
        let x: u128 = (self.num as u128) * (other.den as u128);
        let y: u128 = (other.num as u128) * (self.den as u128);
        x <= y
    }
}

} // verus!
