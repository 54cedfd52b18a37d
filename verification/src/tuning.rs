//! How high a pitch is, so that pitches given in hertz and pitches given by their place in
//! the equal-tempered scale can be held against each other.

use crate::voice::Pitch;
use vstd::arithmetic::power2::{
    lemma2_to64, lemma2_to64_rest, lemma_pow2_adds, lemma_pow2_pos, lemma_pow2_strictly_increases,
    pow2,
};
use vstd::prelude::*;

verus! {

/// The twelfth power of a whole number.
pub open spec fn twelfth_power(x: int) -> int {
    let cube = x * x * x;
    (cube * cube) * (cube * cube)
}

/// How high a pitch is: the twelfth power of its frequency in hundredths of a hertz, times
/// two to the power of 69. A step of the equal-tempered scale multiplies a frequency by the
/// twelfth root of two, so that this is a whole number for every pitch, and is larger where
/// the frequency is.
pub open spec fn height(pitch: Pitch) -> int {
    match pitch {
        Pitch::Hundredths(n) => twelfth_power(n as int) * pow2(69),
        Pitch::Tempered(number) => twelfth_power(44000) * pow2(number as nat),
    }
}

/// Of all whole numbers of hundredths of a hertz, `hundredths` is the one closest to the
/// note `number` of the equal-tempered scale: half a hundredth less is too low, and half a
/// hundredth more too high.
pub open spec fn is_in_tune(hundredths: u32, number: u8) -> bool {
    let doubled = twelfth_power(88000) * pow2(number as nat);
    twelfth_power(2 * hundredths - 1) * pow2(69) < doubled < twelfth_power(2 * hundredths + 1)
        * pow2(69)
}

proof fn lemma_power_of_two(number: nat)
    requires
        number <= 127,
    ensures
        number >= 64 ==> pow2(number) == 0x1_0000_0000_0000_0000 * pow2((number - 64) as nat),
{
    lemma2_to64();
    if number >= 64 {
        lemma_pow2_adds(64, (number - 64) as nat);
    }
}

/// The scale is tuned to 440 hertz at number 69; a higher number is a higher pitch; and
/// twelve numbers up is an octave, which is twice the frequency.
pub proof fn law_tempered_scale(low: u8, high: u8)
    requires
        low < high,
    ensures
        height(Pitch::Tempered(69)) == height(Pitch::Hundredths(44000)),
        height(Pitch::Tempered(low)) < height(Pitch::Tempered(high)),
        high == low + 12 ==> height(Pitch::Tempered(high)) == twelfth_power(2) * height(
            Pitch::Tempered(low),
        ),
{
    lemma_pow2_strictly_increases(low as nat, high as nat);
    lemma_twelfth_power_increases(0, 44000);
    let (a, x, y) = (twelfth_power(44000), pow2(low as nat) as int, pow2(high as nat) as int);
    assert(twelfth_power(0) == 0) by (nonlinear_arith);
    assert(a * x < a * y) by (nonlinear_arith)
        requires
            a > 0,
            x < y,
    ;
    if high == low + 12 {
        lemma2_to64();
        lemma_pow2_adds(low as nat, 12);
        assert(a * y == 4096 * (a * x)) by (nonlinear_arith)
            requires
                y == x * 4096,
        ;
        assert(twelfth_power(2) == 4096) by (nonlinear_arith);
    }
}

proof fn lemma_twelfth_power_increases(x: int, y: int)
    requires
        0 <= x < y,
    ensures
        0 <= twelfth_power(x) < twelfth_power(y),
{
    assert(0 <= x * x < y * y) by (nonlinear_arith)
        requires
            0 <= x < y,
    ;
    assert(0 <= x * x * x < y * y * y) by (nonlinear_arith)
        requires
            0 <= x < y,
            0 <= x * x < y * y,
    ;
    let (c, d) = (x * x * x, y * y * y);
    assert(0 <= c * c < d * d) by (nonlinear_arith)
        requires
            0 <= c < d,
    ;
    let (h, k) = (c * c, d * d);
    assert(0 <= h * h < k * k) by (nonlinear_arith)
        requires
            0 <= h < k,
    ;
}

/// A larger number of hundredths of a hertz is a higher pitch.
pub proof fn law_hundredths_ascend(low: u32, high: u32)
    requires
        low < high,
    ensures
        height(Pitch::Hundredths(low)) < height(Pitch::Hundredths(high)),
{
    lemma_pow2_pos(69);
    lemma_twelfth_power_increases(low as int, high as int);
    let (h, k, p) = (twelfth_power(low as int), twelfth_power(high as int), pow2(69) as int);
    assert(h * p < k * p) by (nonlinear_arith)
        requires
            h < k,
            p > 0,
    ;
}

/// There is never a choice how many hundredths of a hertz a note has.
pub proof fn law_tuning_is_definite(a: u32, b: u32, number: u8)
    requires
        is_in_tune(a, number),
        is_in_tune(b, number),
    ensures
        a == b,
{
    if a < b {
        lemma_out_of_tune(a, b, number);
    } else if b < a {
        lemma_out_of_tune(b, a, number);
    }
}

proof fn lemma_out_of_tune(low: u32, high: u32, number: u8)
    requires
        low < high,
    ensures
        !(is_in_tune(low, number) && is_in_tune(high, number)),
{
    lemma_pow2_pos(69);
    let (x, y) = (2 * low + 1, 2 * high - 1);
    if x < y {
        lemma_twelfth_power_increases(x, y);
    }
    let (h, k, p) = (twelfth_power(x), twelfth_power(y), pow2(69) as int);
    assert(h * p <= k * p) by (nonlinear_arith)
        requires
            h <= k,
            p > 0,
    ;
}

/// The notes that the synthesizer plays by itself and from the computer keyboard.
pub proof fn lemma_notes_in_tune()
    ensures
        is_in_tune(13081, 48),
        is_in_tune(19600, 55),
        is_in_tune(26163, 60),
        is_in_tune(27718, 61),
        is_in_tune(32963, 64),
        is_in_tune(34923, 65),
        is_in_tune(39200, 67),
        is_in_tune(41530, 68),
        is_in_tune(49388, 71),
        is_in_tune(52325, 72),
        is_in_tune(88000, 81),
{
    lemma2_to64();
    lemma2_to64_rest();
    lemma_power_of_two(65);
    lemma_power_of_two(67);
    lemma_power_of_two(68);
    lemma_power_of_two(69);
    lemma_power_of_two(71);
    lemma_power_of_two(72);
    lemma_power_of_two(81);
    assert(is_in_tune(13081, 48)) by (nonlinear_arith)
        requires
            pow2(69) == 0x20_0000_0000_0000_0000,
            pow2(48) == 0x1_0000_0000_0000,
    ;
    assert(is_in_tune(19600, 55)) by (nonlinear_arith)
        requires
            pow2(69) == 0x20_0000_0000_0000_0000,
            pow2(55) == 0x80_0000_0000_0000,
    ;
    assert(is_in_tune(26163, 60)) by (nonlinear_arith)
        requires
            pow2(69) == 0x20_0000_0000_0000_0000,
            pow2(60) == 0x1000_0000_0000_0000,
    ;
    assert(is_in_tune(27718, 61)) by (nonlinear_arith)
        requires
            pow2(69) == 0x20_0000_0000_0000_0000,
            pow2(61) == 0x2000_0000_0000_0000,
    ;
    assert(is_in_tune(32963, 64)) by (nonlinear_arith)
        requires
            pow2(69) == 0x20_0000_0000_0000_0000,
            pow2(64) == 0x1_0000_0000_0000_0000,
    ;
    assert(is_in_tune(34923, 65)) by (nonlinear_arith)
        requires
            pow2(69) == 0x20_0000_0000_0000_0000,
            pow2(65) == 0x2_0000_0000_0000_0000,
    ;
    assert(is_in_tune(39200, 67)) by (nonlinear_arith)
        requires
            pow2(69) == 0x20_0000_0000_0000_0000,
            pow2(67) == 0x8_0000_0000_0000_0000,
    ;
    assert(is_in_tune(41530, 68)) by (nonlinear_arith)
        requires
            pow2(69) == 0x20_0000_0000_0000_0000,
            pow2(68) == 0x10_0000_0000_0000_0000,
    ;
    assert(is_in_tune(49388, 71)) by (nonlinear_arith)
        requires
            pow2(69) == 0x20_0000_0000_0000_0000,
            pow2(71) == 0x80_0000_0000_0000_0000,
    ;
    assert(is_in_tune(52325, 72)) by (nonlinear_arith)
        requires
            pow2(69) == 0x20_0000_0000_0000_0000,
            pow2(72) == 0x100_0000_0000_0000_0000,
    ;
    assert(is_in_tune(88000, 81)) by (nonlinear_arith)
        requires
            pow2(69) == 0x20_0000_0000_0000_0000,
            pow2(81) == 0x2_0000_0000_0000_0000_0000,
    ;
}

} // verus!
