//! Single-precision numbers held by their bit patterns.
//!
//! The audio path works in IEEE 754 single precision. The control logic never
//! adds or multiplies such a number: it stores it, hands it on, and tests it
//! against a threshold. This module gives the bit pattern a numeric meaning and
//! the tests a proof against that meaning.

use vstd::arithmetic::power2::{
    lemma2_to64, lemma_pow2_adds, lemma_pow2_pos, lemma_pow2_strictly_increases, lemma_pow2_unfold,
    pow2,
};
use vstd::prelude::*;

verus! {

/// The lowest bit pattern with the sign bit set.
pub const SIGN_BIT: u32 = 0x8000_0000;

/// The bit pattern of positive infinity. Without its sign bit, every larger
/// pattern is a NaN.
pub const INFINITY_BITS: u32 = 0x7f80_0000;

/// The number of fractions that each exponent has.
pub const FRACTIONS: u32 = 0x0080_0000;

/// The bit pattern of the number one.
pub const ONE_BITS: u32 = 0x3f80_0000;

/// The bit pattern of one half.
pub const HALF_BITS: u32 = 0x3f00_0000;

/// An IEEE 754 single-precision number, held by its bit pattern.
#[derive(Clone, Copy, Debug, PartialEq, Eq, Structural)]
pub struct Single {
    pub bits: u32,
}

/// The number with bit pattern `m`, where `m` has no sign bit, counted in units of
/// the least positive number (two to the power of minus 149), of which every finite
/// number is a whole multiple. Infinity counts as the first power of two that is too
/// large for the format.
pub open spec fn units(m: int) -> int {
    let exponent = m / (FRACTIONS as int);
    let fraction = m % (FRACTIONS as int);
    if exponent == 0 {
        fraction
    } else {
        (FRACTIONS + fraction) * pow2((exponent - 1) as nat)
    }
}

impl Single {
    /// The bit pattern without the sign bit.
    pub open spec fn magnitude(self) -> int {
        if self.bits < SIGN_BIT {
            self.bits as int
        } else {
            self.bits - SIGN_BIT
        }
    }

    /// Whether this is no number, and so outside the numeric order.
    pub open spec fn is_nan(self) -> bool {
        self.magnitude() > INFINITY_BITS
    }

    /// The numeric value, in the units of [`units`]. Both zeros have the value 0.
    pub open spec fn value(self) -> int {
        if self.bits < SIGN_BIT {
            units(self.magnitude())
        } else {
            -units(self.magnitude())
        }
    }

    /// Whether this is a number and not infinite.
    pub open spec fn is_finite(self) -> bool {
        self.magnitude() < INFINITY_BITS
    }

    /// The number of the same size with the other sign.
    pub open spec fn negated(self) -> Single {
        if self.bits < SIGN_BIT {
            Single { bits: (self.bits + SIGN_BIT) as u32 }
        } else {
            Single { bits: (self.bits - SIGN_BIT) as u32 }
        }
    }

    /// `self <= other` in the numeric order; false where either is no number.
    pub open spec fn le(self, other: Single) -> bool {
        !self.is_nan() && !other.is_nan() && self.value() <= other.value()
    }

    /// `self < other` in the numeric order; false where either is no number.
    pub open spec fn lt(self, other: Single) -> bool {
        !self.is_nan() && !other.is_nan() && self.value() < other.value()
    }

    /// The number zero.
    pub open spec fn spec_zero() -> Single {
        Single { bits: 0 }
    }

    /// The number one.
    pub open spec fn spec_one() -> Single {
        Single { bits: ONE_BITS }
    }

    /// One half.
    pub open spec fn spec_half() -> Single {
        Single { bits: HALF_BITS }
    }

    /// The place of this number among all numbers: a whole number that is ordered
    /// as the values are.
    pub open spec fn rank(self) -> int {
        if self.bits < SIGN_BIT {
            self.magnitude()
        } else {
            -self.magnitude()
        }
    }

    /// The number zero.
    #[verifier::when_used_as_spec(spec_zero)]
    pub fn zero() -> (r: Single)
        ensures
            r == Single::spec_zero(),
    {
        Single { bits: 0 }
    }

    /// The number one.
    #[verifier::when_used_as_spec(spec_one)]
    pub fn one() -> (r: Single)
        ensures
            r == Single::spec_one(),
    {
        Single { bits: ONE_BITS }
    }

    /// One half.
    #[verifier::when_used_as_spec(spec_half)]
    pub fn half() -> (r: Single)
        ensures
            r == Single::spec_half(),
    {
        Single { bits: HALF_BITS }
    }

    /// Whether this is no number.
    pub fn not_a_number(self) -> (r: bool)
        ensures
            r == self.is_nan(),
    {
        if self.bits < SIGN_BIT {
            self.bits > INFINITY_BITS
        } else {
            self.bits - SIGN_BIT > INFINITY_BITS
        }
    }

    fn signed_rank(self) -> (r: i64)
        ensures
            r == self.rank(),
    {
        if self.bits < SIGN_BIT {
            self.bits as i64
        } else {
            -((self.bits - SIGN_BIT) as i64)
        }
    }

    /// `self <= other`, as numbers.
    pub fn at_most(self, other: Single) -> (r: bool)
        ensures
            r == self.le(other),
    {
        proof {
            lemma_rank_orders(self, other);
        }
        !self.not_a_number() && !other.not_a_number() && self.signed_rank() <= other.signed_rank()
    }

    /// `self < other`, as numbers.
    pub fn below(self, other: Single) -> (r: bool)
        ensures
            r == self.lt(other),
    {
        proof {
            lemma_rank_orders(other, self);
        }
        !self.not_a_number() && !other.not_a_number() && self.signed_rank() < other.signed_rank()
    }
}

/// A larger magnitude is a larger number.
pub proof fn lemma_units_increase(m: int, n: int)
    requires
        0 <= m < n,
    ensures
        0 <= units(m) < units(n),
{
    let f = FRACTIONS as int;
    let (em, en) = (m / f, n / f);
    let (fm, fn_) = (m % f, n % f);
    assert(m == f * em + fm && n == f * en + fn_);
    assert(em <= en);
    lemma_pow2_pos(if em == 0 { 0 } else { (em - 1) as nat });
    lemma_pow2_pos((if en == 0 { 0 } else { en - 1 }) as nat);
    if em == 0 {
        if en > 0 {
            let p = pow2((en - 1) as nat);
            assert((f + fn_) * p >= f) by (nonlinear_arith)
                requires
                    f > 0,
                    fn_ >= 0,
                    p >= 1,
            ;
        }
    } else if em == en {
        let p = pow2((em - 1) as nat);
        assert(0 <= (f + fm) * p < (f + fn_) * p) by (nonlinear_arith)
            requires
                0 <= fm < fn_,
                f > 0,
                p >= 1,
        ;
    } else {
        let p = pow2((em - 1) as nat);
        let q = pow2(em as nat);
        let r = pow2((en - 1) as nat);
        lemma_pow2_unfold(em as nat);
        if em < en - 1 {
            lemma_pow2_strictly_increases(em as nat, (en - 1) as nat);
        }
        assert(0 <= (f + fm) * p < (f + fn_) * r) by (nonlinear_arith)
            requires
                0 <= fm < f,
                0 <= fn_,
                p >= 1,
                q == 2 * p,
                q <= r,
        ;
    }
}

/// Ranks are ordered as values are.
pub proof fn lemma_rank_orders(a: Single, b: Single)
    ensures
        a.rank() <= b.rank() <==> a.value() <= b.value(),
{
    let (m, n) = (a.magnitude(), b.magnitude());
    assert(units(0) == 0);
    if m > 0 {
        lemma_units_increase(0, m);
    }
    if n > 0 {
        lemma_units_increase(0, n);
    }
    if m < n {
        lemma_units_increase(m, n);
    } else if n < m {
        lemma_units_increase(n, m);
    }
}

/// The numeric order is total on numbers, and the strict order is its complement.
pub proof fn law_order_total(a: Single, b: Single)
    requires
        !a.is_nan(),
        !b.is_nan(),
    ensures
        a.le(b) || b.le(a),
        a.lt(b) <==> !b.le(a),
{
}

/// The constants mean what they are called: one is two to the power of 149 units,
/// and one half is half of that.
pub proof fn lemma_constants()
    ensures
        Single::zero().value() == 0,
        Single::one().value() == pow2(149),
        2 * Single::half().value() == Single::one().value(),
        Single::zero().lt(Single::half()),
        Single::half().lt(Single::one()),
{
    assert(ONE_BITS as int / FRACTIONS as int == 127);
    assert(HALF_BITS as int / FRACTIONS as int == 126);
    lemma2_to64();
    lemma_pow2_adds(23, 126);
    lemma_pow2_unfold(126);
    lemma_pow2_pos(125);
    assert(FRACTIONS * (2 * pow2(125)) == 2 * (FRACTIONS * pow2(125))) by (nonlinear_arith);
}

/// A bit pattern is a sign, an exponent and a fraction. With the highest exponent, a
/// fraction other than zero makes it no number; with the lowest, the value is the fraction;
/// with any other, the fraction follows a leading one and doubles with each exponent.
pub proof fn law_bits_have_their_value(negative: bool, exponent: u32, fraction: u32)
    requires
        exponent <= 255,
        fraction < 0x80_0000,
    ensures
        ({
            let bits = (if negative {
                0x8000_0000int
            } else {
                0
            }) + 0x80_0000 * exponent + fraction;
            let single = Single { bits: bits as u32 };
            let size = if exponent == 0 {
                fraction as int
            } else {
                (0x80_0000 + fraction) * pow2((exponent - 1) as nat)
            };
            &&& single.is_nan() <==> exponent == 255 && fraction > 0
            &&& single.is_finite() <==> exponent < 255
            &&& single.value() == if negative {
                -size
            } else {
                size
            }
        }),
{
}

/// Numbers are compared by their values, and what is no number compares with nothing.
pub proof fn law_order_is_numeric(a: Single, b: Single)
    ensures
        a.le(b) <==> !a.is_nan() && !b.is_nan() && a.value() <= b.value(),
        a.lt(b) <==> !a.is_nan() && !b.is_nan() && a.value() < b.value(),
{
}

} // verus!
