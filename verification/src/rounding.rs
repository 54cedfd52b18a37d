//! What single-precision arithmetic gives: the exact result, rounded to the nearest
//! number of the format.
//!
//! The sums and products of the audio path are made outside this library. The predicates
//! here say, as IEEE 754 does, which number such an operation gives, so that laws can
//! speak of the numbers that come back from there.

use crate::single::{
    lemma_constants, lemma_rank_orders, lemma_units_increase, units, Single, FRACTIONS,
    INFINITY_BITS, SIGN_BIT,
};
use vstd::arithmetic::power2::{
    lemma2_to64, lemma_pow2_adds, lemma_pow2_pos, lemma_pow2_strictly_increases, lemma_pow2_unfold,
    pow2,
};
use vstd::prelude::*;

verus! {

/// How far `r` lies from the fraction `num / den`, times `den`, in the units of
/// [`units`].
pub open spec fn apart(r: Single, num: int, den: int) -> int {
    let d = r.value() * den - num;
    if d < 0 {
        -d
    } else {
        d
    }
}

/// `r` is the fraction `num / den` rounded to the nearest number and, where two are
/// equally near, to the one with the even bit pattern. A fraction that is nearer to the
/// power of two above all numbers than to any of them is rounded to infinity.
pub open spec fn rounds_to(num: int, den: int, r: Single) -> bool {
    &&& !r.is_nan()
    &&& forall|s: Single|
        #![trigger apart(s, num, den)]
        !s.is_nan() && s.value() != r.value() ==> apart(r, num, den) < apart(s, num, den) || (apart(
            r,
            num,
            den,
        ) == apart(s, num, den) && r.bits % 2 == 0)
}

/// `r` is the fraction `n / d` of two whole numbers, as a number.
pub open spec fn is_ratio(n: int, d: int, r: Single) -> bool {
    rounds_to(n * Single::one().value(), d, r)
}

/// `r` is what `a + b` gives, where `a` is finite and `b` a number.
pub open spec fn is_sum(a: Single, b: Single, r: Single) -> bool {
    if b.is_finite() {
        rounds_to(a.value() + b.value(), 1, r)
    } else {
        r == b
    }
}

/// `r` is what `a - b` gives, where `a` is finite and `b` a number.
pub open spec fn is_difference(a: Single, b: Single, r: Single) -> bool {
    is_sum(a, b.negated(), r)
}

/// `r` is what `a * b` gives, where both are finite.
pub open spec fn is_product(a: Single, b: Single, r: Single) -> bool {
    rounds_to(a.value() * b.value(), Single::one().value(), r)
}

/// `r` is what `a / b` gives, where `a` is finite and positive, or zero and `b` is positive,
/// and `b` is not negative.
pub open spec fn is_quotient(a: Single, b: Single, r: Single) -> bool {
    if !b.is_finite() {
        r == Single::zero()
    } else if b.value() == 0 {
        r.bits == INFINITY_BITS
    } else {
        rounds_to(a.value() * Single::one().value(), b.value(), r)
    }
}

/// `r` is what `a % 1.0` gives, where `a` is finite and not negative: the part behind the
/// point, which is exact.
pub open spec fn is_fraction(a: Single, r: Single) -> bool {
    !r.is_nan() && r.value() == a.value() % Single::one().value()
}

/// The other sign has the opposite value.
pub proof fn lemma_negated(a: Single)
    ensures
        a.negated().value() == -a.value(),
        a.negated().magnitude() == a.magnitude(),
        a.negated().bits % 2 == a.bits % 2,
        a.negated().negated() == a,
{
}

/// Rounding treats both signs alike.
pub proof fn lemma_rounds_negated(num: int, den: int, r: Single)
    requires
        rounds_to(num, den, r),
    ensures
        rounds_to(-num, den, r.negated()),
{
    lemma_negated(r);
    let n = r.negated();
    assert forall|s: Single|
        #![trigger apart(s, -num, den)]
        !s.is_nan() && s.value() != n.value() implies apart(n, -num, den) < apart(s, -num, den) || (
    apart(n, -num, den) == apart(s, -num, den) && n.bits % 2 == 0) by {
        lemma_negated(s);
        let t = s.negated();
        assert(apart(t, num, den) == apart(s, -num, den)) by (nonlinear_arith)
            requires
                t.value() == -s.value(),
                apart(t, num, den) == (if t.value() * den - num < 0 {
                    -(t.value() * den - num)
                } else {
                    t.value() * den - num
                }),
                apart(s, -num, den) == (if s.value() * den + num < 0 {
                    -(s.value() * den + num)
                } else {
                    s.value() * den + num
                }),
        ;
        assert(apart(n, -num, den) == apart(r, num, den)) by (nonlinear_arith)
            requires
                n.value() == -r.value(),
                apart(r, num, den) == (if r.value() * den - num < 0 {
                    -(r.value() * den - num)
                } else {
                    r.value() * den - num
                }),
                apart(n, -num, den) == (if n.value() * den + num < 0 {
                    -(n.value() * den + num)
                } else {
                    n.value() * den + num
                }),
        ;
    }
}

/// A number is its own rounding.
pub proof fn lemma_rounds_itself(r: Single)
    requires
        !r.is_nan(),
    ensures
        rounds_to(r.value(), 1, r),
{
}

/// Between two numbers whose bit patterns are both even, there is a third.
proof fn lemma_between(low: Single, high: Single) -> (mid: Single)
    requires
        !low.is_nan(),
        !high.is_nan(),
        low.value() < high.value(),
        low.bits % 2 == 0,
        high.bits % 2 == 0,
    ensures
        !mid.is_nan(),
        low.value() < mid.value() < high.value(),
{
    lemma_rank_orders(low, high);
    lemma_rank_orders(high, low);
    let rank = low.rank() + 1;
    assert(low.rank() % 2 == 0 && high.rank() % 2 == 0);
    let mid = if rank >= 0 {
        Single { bits: rank as u32 }
    } else {
        Single { bits: (SIGN_BIT - rank) as u32 }
    };
    assert(mid.rank() == rank);
    lemma_rank_orders(mid, low);
    lemma_rank_orders(high, mid);
    mid
}

/// Rounding keeps the order: a smaller fraction is not rounded to a larger number, and
/// equal fractions are rounded to equal numbers.
#[verifier::spinoff_prover]
#[verifier::rlimit(40)]
pub proof fn lemma_rounding_monotone(
    num1: int,
    den1: int,
    r1: Single,
    num2: int,
    den2: int,
    r2: Single,
)
    requires
        den1 > 0,
        den2 > 0,
        num1 * den2 <= num2 * den1,
        rounds_to(num1, den1, r1),
        rounds_to(num2, den2, r2),
    ensures
        r1.value() <= r2.value(),
{
    let (a, b) = (r1.value(), r2.value());
    if a > b {
        assert(apart(r1, num1, den1) <= apart(r2, num1, den1));
        assert(apart(r2, num2, den2) <= apart(r1, num2, den2));
        assert(a * den1 > b * den1 && a * den2 > b * den2) by (nonlinear_arith)
            requires
                a > b,
                den1 > 0,
                den2 > 0,
        ;
        assert(2 * num1 >= a * den1 + b * den1);
        assert(2 * num2 <= a * den2 + b * den2);
        assert((a * den1 + b * den1) * den2 == (a * den2 + b * den2) * den1) by (nonlinear_arith);
        assert((2 * num1) * den2 >= (a * den1 + b * den1) * den2) by (nonlinear_arith)
            requires
                2 * num1 >= a * den1 + b * den1,
                den2 > 0,
        ;
        assert((2 * num2) * den1 <= (a * den2 + b * den2) * den1) by (nonlinear_arith)
            requires
                2 * num2 <= a * den2 + b * den2,
                den1 > 0,
        ;
        assert((2 * num1) * den2 == 2 * (num1 * den2) && (2 * num2) * den1 == 2 * (num2 * den1))
            by (nonlinear_arith);
        assert((2 * num1 - (a * den1 + b * den1)) * den2 == 0) by (nonlinear_arith)
            requires
                (2 * num1) * den2 == (a * den1 + b * den1) * den2,
        ;
        assert(2 * num1 == a * den1 + b * den1) by (nonlinear_arith)
            requires
                (2 * num1 - (a * den1 + b * den1)) * den2 == 0,
                den2 > 0,
        ;
        assert((2 * num2 - (a * den2 + b * den2)) * den1 == 0) by (nonlinear_arith)
            requires
                (2 * num2) * den1 == (a * den2 + b * den2) * den1,
        ;
        assert(2 * num2 == a * den2 + b * den2) by (nonlinear_arith)
            requires
                (2 * num2 - (a * den2 + b * den2)) * den1 == 0,
                den1 > 0,
        ;
        let mid = lemma_between(r2, r1);
        let c = mid.value();
        assert(b * den1 < c * den1 < a * den1) by (nonlinear_arith)
            requires
                b < c < a,
                den1 > 0,
        ;
        assert(apart(mid, num1, den1) < apart(r1, num1, den1));
    }
}

/// A fraction that is not below a number is not rounded below it.
pub proof fn lemma_rounds_not_below(num: int, den: int, r: Single, bound: Single)
    requires
        den > 0,
        rounds_to(num, den, r),
        !bound.is_nan(),
        bound.value() * den <= num,
    ensures
        bound.value() <= r.value(),
{
    lemma_rounds_itself(bound);
    lemma_rounding_monotone(bound.value(), 1, bound, num, den, r);
}

/// A fraction that is not above a number is not rounded above it.
pub proof fn lemma_rounds_not_above(num: int, den: int, r: Single, bound: Single)
    requires
        den > 0,
        rounds_to(num, den, r),
        !bound.is_nan(),
        num <= bound.value() * den,
    ensures
        r.value() <= bound.value(),
{
    lemma_rounds_itself(bound);
    lemma_rounding_monotone(num, den, r, bound.value(), 1, bound);
}

/// From a normal number to the next one up is a step of a `FRACTIONS`th of the number at
/// most.
proof fn lemma_gap(m: int)
    requires
        m >= FRACTIONS,
    ensures
        FRACTIONS * (units(m + 1) - units(m)) <= units(m),
        units(m + 1) > units(m),
{
    let f = FRACTIONS as int;
    let e = m / f;
    let fraction = m % f;
    let p = pow2((e - 1) as nat) as int;
    lemma_pow2_pos((e - 1) as nat);
    lemma_pow2_unfold(e as nat);
    if fraction + 1 < f {
        assert((m + 1) / f == e && (m + 1) % f == fraction + 1);
        assert((f + fraction + 1) * p - (f + fraction) * p == p) by (nonlinear_arith);
    } else {
        assert((m + 1) / f == e + 1 && (m + 1) % f == 0);
        assert((f + 0) * (2 * p) - (f + (f - 1)) * p == p) by (nonlinear_arith);
    }
    assert(f * p <= (f + fraction) * p) by (nonlinear_arith)
        requires
            fraction >= 0,
            p >= 0,
    ;
}

/// The largest pattern below `hi` whose number is not above `x`.
proof fn lemma_floor(x: int, hi: int) -> (m: int)
    requires
        0 <= x < units(hi),
        hi >= 0,
    ensures
        0 <= m < hi,
        units(m) <= x < units(m + 1),
    decreases hi,
{
    assert(units(0) == 0);
    if units(hi - 1) <= x {
        hi - 1
    } else {
        lemma_floor(x, hi - 1)
    }
}

/// Infinity counts as more than two to the power of 64 times one, which is itself more than
/// that many units; and no number is further from zero.
pub proof fn lemma_infinity_is_far()
    ensures
        Single::one().value() > 0x1_0000_0000_0000_0000,
        units(INFINITY_BITS as int) > 0x1_0000_0000_0000_0000 * Single::one().value(),
        forall|a: Single|
            !a.is_nan() ==> -units(INFINITY_BITS as int) <= #[trigger] a.value() <= units(
                INFINITY_BITS as int,
            ),
{
    lemma_constants();
    lemma2_to64();
    assert(INFINITY_BITS as int / FRACTIONS as int == 255);
    lemma_pow2_adds(149, 105);
    lemma_pow2_strictly_increases(64, 105);
    lemma_pow2_strictly_increases(64, 149);
    lemma_pow2_pos(149);
    let (one, far) = (pow2(149) as int, pow2(105) as int);
    assert(8388608 * (one * far) > 0x1_0000_0000_0000_0000 * one) by (nonlinear_arith)
        requires
            far > 0x1_0000_0000_0000_0000,
            one > 0,
    ;
    let top = Single { bits: INFINITY_BITS };
    assert forall|a: Single| !a.is_nan() implies -units(INFINITY_BITS as int) <= (
    #[trigger] a.value()) <= units(INFINITY_BITS as int) by {
        lemma_rank_orders(a, top);
        lemma_rank_orders(top.negated(), a);
        lemma_negated(top);
    }
}

/// A number is finite where its value does not reach that of infinity.
pub proof fn lemma_finite_by_value(a: Single)
    requires
        !a.is_nan(),
        -units(INFINITY_BITS as int) < a.value() < units(INFINITY_BITS as int),
    ensures
        a.is_finite(),
{
}

/// A finite number does not reach infinity.
pub proof fn lemma_finite_value(a: Single)
    requires
        a.is_finite(),
    ensures
        -units(INFINITY_BITS as int) < a.value() < units(INFINITY_BITS as int),
{
    lemma_units_increase(a.magnitude(), INFINITY_BITS as int);
}

/// The sum of a finite number and one less than one is finite.
pub proof fn lemma_small_sum_finite(a: Single, b: Single, r: Single)
    requires
        0 <= a.value() < Single::one().value(),
        b.is_finite(),
        b.value() >= 0,
        is_sum(a, b, r),
    ensures
        r.is_finite(),
        r.value() >= 0,
{
    lemma_constants();
    lemma_infinity_is_far();
    let x = a.value() + b.value();
    lemma_rounds_not_below(x, 1, r, Single::zero());
    let top = Single { bits: (INFINITY_BITS - 1) as u32 };
    assert((INFINITY_BITS - 1) / FRACTIONS as int == 254 && (INFINITY_BITS - 1) % FRACTIONS as int
        == FRACTIONS - 1);
    assert(INFINITY_BITS as int / FRACTIONS as int == 255);
    lemma_pow2_unfold(254);
    lemma_pow2_strictly_increases(150, 253);
    lemma_pow2_unfold(150);
    let p = pow2(253) as int;
    assert((8388608 + 8388607) * p + p == 8388608 * (2 * p)) by (nonlinear_arith);
    assert(units(INFINITY_BITS as int) - top.value() == p);
    lemma_rank_orders(b, top);
    if x <= top.value() {
        lemma_rounds_not_above(x, 1, r, top);
    } else {
        assert(apart(top, x, 1) <= Single::one().value());
        assert(apart(r, x, 1) <= apart(top, x, 1));
    }
    lemma_finite_by_value(r);
}

/// Rounding a fraction that is in the range of normal numbers moves it by a
/// `FRACTIONS`th at most.
#[verifier::spinoff_prover]
#[verifier::rlimit(40)]
pub proof fn lemma_relative_error(num: int, den: int, r: Single)
    requires
        den > 0,
        rounds_to(num, den, r),
        FRACTIONS * den <= num,
        num < units(INFINITY_BITS as int) * den,
    ensures
        FRACTIONS * apart(r, num, den) <= num,
{
    let f = FRACTIONS as int;
    let x = num / den;
    let top = units(INFINITY_BITS as int);
    vstd::arithmetic::div_mod::lemma_fundamental_div_mod(num, den);
    vstd::arithmetic::div_mod::lemma_mod_bound(num, den);
    assert(f <= x < top) by (nonlinear_arith)
        requires
            num == den * x + num % den,
            0 <= num % den < den,
            f * den <= num,
            num < top * den,
            den > 0,
    ;
    let m = lemma_floor(x, INFINITY_BITS as int);
    assert(units(f) == f) by {
        lemma2_to64();
        assert(f / f == 1 && f % f == 0);
    }
    if m < f {
        if m + 1 < f {
            lemma_units_increase(m + 1, f);
        }
    }
    lemma_gap(m);
    let s = Single { bits: m as u32 };
    assert(s.value() == units(m));
    let (u, g) = (units(m), units(m + 1) - units(m));
    assert(num - u * den >= 0 && f * (num - u * den) <= num) by (nonlinear_arith)
        requires
            num == den * x + num % den,
            0 <= num % den < den,
            u <= x,
            x < u + g,
            f * g <= u,
            den > 0,
            f > 0,
    {
        assert(num < den * (x + 1));
        assert(den * (x + 1) <= den * (u + g));
        assert(num - u * den <= den * g);
        assert(f * (num - u * den) <= f * (den * g));
        assert(f * (den * g) == den * (f * g));
        assert(den * (f * g) <= den * u);
        assert(den * u <= num);
    }
    assert(apart(s, num, den) == num - u * den);
    assert(apart(r, num, den) <= apart(s, num, den));
}

/// Rounding a whole number of units moves it by a `FRACTIONS`th of its size at most.
pub proof fn lemma_unit_error(x: int, r: Single)
    requires
        rounds_to(x, 1, r),
        -units(INFINITY_BITS as int) < x < units(INFINITY_BITS as int),
    ensures
        x >= 0 ==> FRACTIONS * apart(r, x, 1) <= x,
        x <= 0 ==> FRACTIONS * apart(r, x, 1) <= -x,
{
    if x < 0 {
        lemma_rounds_negated(x, 1, r);
        lemma_negated(r);
        lemma_unit_error_nonnegative(-x, r.negated());
    } else {
        lemma_unit_error_nonnegative(x, r);
    }
}

proof fn lemma_unit_error_nonnegative(x: int, r: Single)
    requires
        rounds_to(x, 1, r),
        0 <= x < units(INFINITY_BITS as int),
    ensures
        FRACTIONS * apart(r, x, 1) <= x,
{
    if x < FRACTIONS {
        let s = Single { bits: x as u32 };
        assert(s.value() == x);
        assert(apart(s, x, 1) == 0);
    } else {
        lemma_relative_error(x, 1, r);
    }
}

} // verus!
