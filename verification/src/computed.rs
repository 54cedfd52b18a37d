//! Laws of the audio path as it is computed: the levels, phases and samples that come back
//! from single-precision arithmetic keep what the rest of the library relies on.

use crate::delay::{bounded, law_round_rewrites_every_slot, law_store_keeps_bound, ring_after};
use crate::rounding::{
    is_difference, is_fraction, is_product, is_quotient, is_ratio, is_sum, lemma_finite_by_value,
    lemma_finite_value, lemma_infinity_is_far, lemma_negated, lemma_relative_error,
    lemma_rounding_monotone, lemma_rounds_negated, lemma_rounds_not_above, lemma_rounds_not_below,
    lemma_small_sum_finite, lemma_unit_error,
};
use crate::single::{lemma_constants, units, Single, INFINITY_BITS};
use crate::voice::{
    after_samples, keeps_moving, law_click_is_quicker, law_level_stays_in_range,
    law_voice_frees_itself, law_voice_stays_valid, lemma_keeps_moving_extends, moves_by, EnvState,
    Motion, Voice, VoiceId, Waveform,
};
use vstd::prelude::*;

verus! {

/// `step` is the share of one sample in a way of `millis` milliseconds: one, over the time
/// in seconds times the sample rate.
pub open spec fn is_step(millis: u32, sample_rate: Single, step: Single) -> bool {
    exists|time: Single, span: Single|
        {
            &&& is_ratio(millis as int, 1000, time)
            &&& #[trigger] is_product(time, sample_rate, span)
            &&& is_quotient(Single::one(), span, step)
        }
}

/// `moved` is the level of a voice with the share of one sample added where it rises, and
/// taken away where it falls.
pub open spec fn is_moved(voice: Voice, sample_rate: Single, moved: Single) -> bool {
    match voice.motion() {
        Motion::Still => true,
        Motion::Rise { millis } => exists|step: Single| #[trigger]
            is_step(millis, sample_rate, step) && is_sum(voice.env_level, step, moved),
        Motion::Fall { millis } => exists|step: Single| #[trigger]
            is_step(millis, sample_rate, step) && is_difference(voice.env_level, step, moved),
    }
}

/// `next_phase` is the phase with one sample's share of the turns of a second added, and
/// full turns taken away.
pub open spec fn is_next_phase(
    phase: Single,
    frequency: Single,
    sample_rate: Single,
    next_phase: Single,
) -> bool {
    exists|turn: Single, sum: Single|
        {
            &&& is_quotient(frequency, sample_rate, turn)
            &&& #[trigger] is_sum(phase, turn, sum)
            &&& is_fraction(sum, next_phase)
        }
}

proof fn lemma_step_nonnegative(millis: u32, sample_rate: Single, step: Single)
    requires
        !sample_rate.is_nan(),
        sample_rate.value() >= 0,
        is_step(millis, sample_rate, step),
    ensures
        !step.is_nan(),
        step.value() >= 0,
{
    lemma_constants();
    lemma_infinity_is_far();
    let one = Single::one().value();
    let (time, span) = choose|time: Single, span: Single|
        {
            &&& is_ratio(millis as int, 1000, time)
            &&& #[trigger] is_product(time, sample_rate, span)
            &&& is_quotient(Single::one(), span, step)
        };
    assert(millis * one >= 0) by (nonlinear_arith)
        requires
            one > 0,
    ;
    lemma_rounds_not_below(millis * one, 1000, time, Single::zero());
    assert(time.value() * sample_rate.value() >= 0) by (nonlinear_arith)
        requires
            time.value() >= 0,
            sample_rate.value() >= 0,
    ;
    lemma_rounds_not_below(time.value() * sample_rate.value(), one, span, Single::zero());
    if span.is_finite() && span.value() > 0 {
        assert(one * one >= 0) by (nonlinear_arith);
        lemma_rounds_not_below(one * one, span.value(), step, Single::zero());
    }
}

/// A computed rise does not lower a level, and a computed fall does not raise it.
proof fn lemma_moves_as_due(voice: Voice, sample_rate: Single, moved: Single)
    requires
        voice.level_in_range(),
        !sample_rate.is_nan(),
        sample_rate.value() >= 0,
        is_moved(voice, sample_rate, moved),
    ensures
        voice.motion() is Rise ==> voice.env_level.le(moved),
        voice.motion() is Fall ==> moved.le(voice.env_level),
{
    lemma_constants();
    lemma_infinity_is_far();
    let level = voice.env_level;
    match voice.motion() {
        Motion::Still => {},
        Motion::Rise { millis } => {
            let step = choose|step: Single| #[trigger]
                is_step(millis, sample_rate, step) && is_sum(level, step, moved);
            lemma_step_nonnegative(millis, sample_rate, step);
            if step.is_finite() {
                lemma_rounds_not_below(level.value() + step.value(), 1, moved, level);
            } else {
                assert(step.value() == units(INFINITY_BITS as int));
            }
        },
        Motion::Fall { millis } => {
            let step = choose|step: Single| #[trigger]
                is_step(millis, sample_rate, step) && is_difference(level, step, moved);
            lemma_step_nonnegative(millis, sample_rate, step);
            lemma_negated(step);
            if step.is_finite() {
                lemma_rounds_not_above(level.value() - step.value(), 1, moved, level);
            } else {
                assert(step.value() == units(INFINITY_BITS as int));
            }
        },
    }
}

/// A computed phase lies within one turn.
proof fn lemma_phase_in_turn(
    phase: Single,
    frequency: Single,
    sample_rate: Single,
    next_phase: Single,
)
    requires
        Single::zero().le(phase),
        phase.lt(Single::one()),
        frequency.is_finite(),
        frequency.value() >= 0,
        sample_rate.is_finite(),
        sample_rate.value() >= Single::one().value(),
        is_next_phase(phase, frequency, sample_rate, next_phase),
    ensures
        Single::zero().le(next_phase),
        next_phase.lt(Single::one()),
{
    lemma_constants();
    lemma_infinity_is_far();
    let one = Single::one().value();
    let (turn, sum) = choose|turn: Single, sum: Single|
        {
            &&& is_quotient(frequency, sample_rate, turn)
            &&& #[trigger] is_sum(phase, turn, sum)
            &&& is_fraction(sum, next_phase)
        };
    let (f, s) = (frequency.value(), sample_rate.value());
    assert(0 <= f * one <= f * s) by (nonlinear_arith)
        requires
            f >= 0,
            0 <= one <= s,
    ;
    lemma_rounds_not_below(f * one, s, turn, Single::zero());
    lemma_rounds_not_above(f * one, s, turn, frequency);
    lemma_finite_value(frequency);
    lemma_finite_by_value(turn);
    lemma_small_sum_finite(phase, turn, sum);
    vstd::arithmetic::div_mod::lemma_mod_bound(sum.value(), one);
}

/// A valid voice is valid after a sample as it is computed, at any finite sample rate of one
/// or more and any finite frequency that is not negative.
pub proof fn law_computed_sample_keeps_valid(
    voice: Voice,
    frequency: Single,
    sample_rate: Single,
    moved: Single,
    next_phase: Single,
)
    requires
        voice.valid(),
        frequency.is_finite(),
        frequency.value() >= 0,
        sample_rate.is_finite(),
        sample_rate.value() >= Single::one().value(),
        is_moved(voice, sample_rate, moved),
        is_next_phase(voice.phase, frequency, sample_rate, next_phase),
    ensures
        voice.after_sample(moved, next_phase).valid(),
{
    lemma_constants();
    lemma_moves_as_due(voice, sample_rate, moved);
    lemma_phase_in_turn(voice.phase, frequency, sample_rate, next_phase);
    law_voice_stays_valid(voice, moved, next_phase);
}

/// The shorter way has the larger share in a sample.
#[verifier::spinoff_prover]
#[verifier::rlimit(40)]
proof fn lemma_shorter_way_larger_step(
    quick: u32,
    slow: u32,
    sample_rate: Single,
    quick_step: Single,
    slow_step: Single,
)
    requires
        quick <= slow,
        !sample_rate.is_nan(),
        sample_rate.value() >= 0,
        is_step(quick, sample_rate, quick_step),
        is_step(slow, sample_rate, slow_step),
    ensures
        slow_step.value() <= quick_step.value(),
{
    lemma_constants();
    lemma_infinity_is_far();
    lemma_step_nonnegative(quick, sample_rate, quick_step);
    lemma_step_nonnegative(slow, sample_rate, slow_step);
    let one = Single::one().value();
    let rate = sample_rate.value();
    let (quick_time, quick_span) = choose|time: Single, span: Single|
        {
            &&& is_ratio(quick as int, 1000, time)
            &&& #[trigger] is_product(time, sample_rate, span)
            &&& is_quotient(Single::one(), span, quick_step)
        };
    let (slow_time, slow_span) = choose|time: Single, span: Single|
        {
            &&& is_ratio(slow as int, 1000, time)
            &&& #[trigger] is_product(time, sample_rate, span)
            &&& is_quotient(Single::one(), span, slow_step)
        };
    assert(0 <= quick * one <= slow * one) by (nonlinear_arith)
        requires
            quick <= slow,
            one > 0,
    ;
    lemma_rounding_monotone(quick * one, 1000, quick_time, slow * one, 1000, slow_time);
    lemma_rounds_not_below(quick * one, 1000, quick_time, Single::zero());
    let (qt, st) = (quick_time.value(), slow_time.value());
    assert(0 <= qt * rate <= st * rate && (qt * rate) * one <= (st * rate) * one) by (
    nonlinear_arith)
        requires
            0 <= qt <= st,
            rate >= 0,
            one > 0,
    ;
    lemma_rounding_monotone(qt * rate, one, quick_span, st * rate, one, slow_span);
    lemma_rounds_not_below(qt * rate, one, quick_span, Single::zero());
    let (qs, ss) = (quick_span.value(), slow_span.value());
    if !slow_span.is_finite() {
    } else if qs > 0 {
        lemma_finite_value(slow_span);
        lemma_finite_by_value(quick_span);
        assert((one * one) * qs <= (one * one) * ss) by (nonlinear_arith)
            requires
                qs <= ss,
        ;
        lemma_rounding_monotone(one * one, ss, slow_step, one * one, qs, quick_step);
    } else {
        assert(quick_span.is_finite()) by {
            assert(qs == 0);
            lemma_finite_by_value(quick_span);
        }
        assert(quick_step.value() == units(INFINITY_BITS as int));
    }
}

/// As it is computed, at any finite sample rate above zero, a click is never behind a
/// note: of two voices that are equal but for the id, the metronome's is no lower after a
/// sample of a rise, and no higher after a sample of a fall.
#[verifier::spinoff_prover]
#[verifier::rlimit(40)]
pub proof fn law_computed_click_is_quicker(
    note: Voice,
    sample_rate: Single,
    click_moved: Single,
    note_moved: Single,
    next_phase: Single,
)
    requires
        note.id != VoiceId::Metronome,
        note.level_in_range(),
        sample_rate.is_finite(),
        sample_rate.value() > 0,
        is_moved(Voice { id: VoiceId::Metronome, ..note }, sample_rate, click_moved),
        is_moved(note, sample_rate, note_moved),
    ensures
        ({
            let click = Voice { id: VoiceId::Metronome, ..note };
            let click_after = click.after_sample(click_moved, next_phase);
            let note_after = note.after_sample(note_moved, next_phase);
            &&& note.state == EnvState::Attack ==> note_after.env_level.le(click_after.env_level)
            &&& note.state == EnvState::Decay ==> click_after.env_level.le(note_after.env_level)
            &&& note.state == EnvState::Idle ==> click_after.env_level == note_after.env_level
        }),
{
    lemma_constants();
    lemma_infinity_is_far();
    let click = Voice { id: VoiceId::Metronome, ..note };
    let level = note.env_level;
    match (click.motion(), note.motion()) {
        (Motion::Rise { millis: quick }, Motion::Rise { millis: slow }) => {
            let quick_step = choose|step: Single| #[trigger]
                is_step(quick, sample_rate, step) && is_sum(level, step, click_moved);
            let slow_step = choose|step: Single| #[trigger]
                is_step(slow, sample_rate, step) && is_sum(level, step, note_moved);
            lemma_step_nonnegative(quick, sample_rate, quick_step);
            lemma_step_nonnegative(slow, sample_rate, slow_step);
            lemma_shorter_way_larger_step(quick, slow, sample_rate, quick_step, slow_step);
            if quick_step.is_finite() {
                lemma_finite_value(quick_step);
                lemma_finite_by_value(slow_step);
                lemma_rounding_monotone(
                    level.value() + slow_step.value(),
                    1,
                    note_moved,
                    level.value() + quick_step.value(),
                    1,
                    click_moved,
                );
            } else {
                assert(quick_step.value() == units(INFINITY_BITS as int));
            }
        },
        (Motion::Fall { millis: quick }, Motion::Fall { millis: slow }) => {
            let quick_step = choose|step: Single| #[trigger]
                is_step(quick, sample_rate, step) && is_difference(level, step, click_moved);
            let slow_step = choose|step: Single| #[trigger]
                is_step(slow, sample_rate, step) && is_difference(level, step, note_moved);
            lemma_step_nonnegative(quick, sample_rate, quick_step);
            lemma_step_nonnegative(slow, sample_rate, slow_step);
            lemma_negated(quick_step);
            lemma_negated(slow_step);
            lemma_shorter_way_larger_step(quick, slow, sample_rate, quick_step, slow_step);
            if quick_step.is_finite() {
                lemma_finite_value(quick_step);
                lemma_finite_by_value(slow_step);
                lemma_rounding_monotone(
                    level.value() - quick_step.value(),
                    1,
                    click_moved,
                    level.value() - slow_step.value(),
                    1,
                    note_moved,
                );
            } else {
                assert(quick_step.value() == units(INFINITY_BITS as int));
            }
        },
        _ => {},
    }
    law_click_is_quicker(note, click_moved, note_moved, next_phase);
}

/// The size of a step, where no rounding in it is off by more than a `FRACTIONS`th.
#[verifier::spinoff_prover]
#[verifier::rlimit(40)]
proof fn lemma_step_bounds(m: int, n: int, one: int, t: int, p: int, q: int)
    requires
        2 <= m <= 1500,
        8 <= n <= 384000,
        one > 0,
        t >= 0,
        p > 0,
        q >= 0,
        8388608 * (1000 * t) <= 8388609 * (m * one),
        8388608 * p <= 8388609 * (t * n),
        8388608 * (q * p) >= 8388607 * (one * one),
    ensures
        q * (m * n) >= 999 * one,
{
    // p is at most m * n * one / 1000, but for the roundings
    assert(8388608 * (8388608 * (1000 * p)) <= 8388609 * (8388609 * ((m * n) * one))) by (
    nonlinear_arith)
        requires
            8388608 * (1000 * t) <= 8388609 * (m * one),
            8388608 * p <= 8388609 * (t * n),
            n > 0,
    {
        assert(8388608 * (1000 * p) <= 8388609 * (1000 * (t * n)));
        assert((8388608 * (1000 * t)) * n <= (8388609 * (m * one)) * n);
        assert((8388608 * (1000 * t)) * n == 8388608 * (1000 * (t * n)));
        assert((8388609 * (m * one)) * n == 8388609 * ((m * n) * one));
    }
    let a = m * n;
    assert(8388608 * (8388608 * (1000 * (q * p))) <= 8388609 * (8388609 * ((q * a) * one))) by (
    nonlinear_arith)
        requires
            8388608 * (8388608 * (1000 * p)) <= 8388609 * (8388609 * (a * one)),
            q >= 0,
    {
        assert(q * (8388608 * (8388608 * (1000 * p))) <= q * (8388609 * (8388609 * (a * one))));
        assert(q * (8388608 * (8388608 * (1000 * p))) == 8388608 * (8388608 * (1000 * (q * p))));
        assert(q * (8388609 * (8388609 * (a * one))) == 8388609 * (8388609 * ((q * a) * one)));
    }
    let b = q * a;
    assert(999 * (one * one) <= b * one);
    assert(999 * one <= b) by (nonlinear_arith)
        requires
            999 * (one * one) <= b * one,
            one > 0,
    ;
}

/// The share of one sample is at least 999 thousandths of what it would be without
/// rounding, and a hundred at most.
#[verifier::spinoff_prover]
#[verifier::rlimit(40)]
proof fn lemma_step_size(millis: u32, n: int, sample_rate: Single, step: Single)
    requires
        2 <= millis <= 1500,
        8 <= n <= 384000,
        sample_rate.is_finite(),
        sample_rate.value() == n * Single::one().value(),
        is_step(millis, sample_rate, step),
    ensures
        step.is_finite(),
        0 <= step.value() <= 100 * Single::one().value(),
        step.value() * (millis * n) >= 999 * Single::one().value(),
{
    lemma_constants();
    lemma_infinity_is_far();
    let one = Single::one().value();
    let top = units(INFINITY_BITS as int);
    let m = millis as int;
    assert(sample_rate.value() >= 0) by (nonlinear_arith)
        requires
            sample_rate.value() == n * one,
            n > 0,
            one > 0,
    ;
    lemma_step_nonnegative(millis, sample_rate, step);
    let (time, span) = choose|time: Single, span: Single|
        {
            &&& is_ratio(millis as int, 1000, time)
            &&& #[trigger] is_product(time, sample_rate, span)
            &&& is_quotient(Single::one(), span, step)
        };
    let (t, p, q) = (time.value(), span.value(), step.value());
    assert(2 * one <= m * one <= 1500 * one) by (nonlinear_arith)
        requires
            2 <= m <= 1500,
            one > 0,
    ;
    lemma_relative_error(m * one, 1000, time);
    assert(8388608 * (1000 * t) <= 8388609 * (m * one));
    assert(8388608 * (1000 * t) >= 8388607 * (m * one));
    assert(8388608 <= t <= 2 * one);
    let tn = t * n;
    assert(8 * t <= tn <= 768000 * one) by (nonlinear_arith)
        requires
            0 <= t <= 2 * one,
            8 <= n <= 384000,
            tn == t * n,
    ;
    assert(t * sample_rate.value() == tn * one) by (nonlinear_arith)
        requires
            sample_rate.value() == n * one,
            tn == t * n,
    ;
    assert(8388608 * one <= tn * one && tn * one < top * one) by (nonlinear_arith)
        requires
            8388608 <= tn < top,
            one > 0,
    ;
    lemma_relative_error(tn * one, one, span);
    assert(8388608 * p <= 8388609 * tn && 8388608 * p >= 8388607 * tn) by (nonlinear_arith)
        requires
            8388608 * (p * one - tn * one) <= tn * one,
            8388608 * (tn * one - p * one) <= tn * one,
            one > 0,
    ;
    assert(one <= 64 * p && p <= 800000 * one);
    lemma_finite_by_value(span);
    assert(8388608 * p <= one * one && one * one < top * p) by (nonlinear_arith)
        requires
            one <= 64 * p,
            0 < p <= 800000 * one,
            one > 0x1_0000_0000_0000_0000,
            top > 64 * one,
    ;
    lemma_relative_error(one * one, p, step);
    assert(8388608 * (q * p) >= 8388607 * (one * one));
    assert(q <= 100 * one) by (nonlinear_arith)
        requires
            8388608 * (q * p) <= 8388609 * (one * one),
            one <= 64 * p,
            p > 0,
            q >= 0,
            one > 0,
    {
        assert(q * one <= q * (64 * p));
        assert(8388608 * (q * one) <= 64 * (8388609 * (one * one)));
        assert(q * one <= (100 * one) * one);
    }
    lemma_finite_by_value(step);
    lemma_step_bounds(m, n, one, t, p, q);
}

/// The least rise of a computed sample at `n` samples a second, rounding and all.
spec fn least_rise(n: int) -> int {
    80 * Single::one().value() / n + 1
}

/// The least fall of a computed sample at `n` samples a second, rounding and all.
spec fn least_fall(n: int) -> int {
    8 * Single::one().value() / (15 * n) + 1
}

#[verifier::spinoff_prover]
#[verifier::rlimit(40)]
proof fn lemma_computed_move(voice: Voice, n: int, sample_rate: Single, moved: Single)
    requires
        voice.level_in_range(),
        8 <= n <= 384000,
        sample_rate.is_finite(),
        sample_rate.value() == n * Single::one().value(),
        is_moved(voice, sample_rate, moved),
    ensures
        moves_by(voice, moved, least_rise(n), least_fall(n)),
{
    lemma_constants();
    lemma_infinity_is_far();
    let one = Single::one().value();
    let level = voice.env_level;
    let (l, v) = (level.value(), moved.value());
    match voice.motion() {
        Motion::Still => {},
        Motion::Rise { millis } => {
            let step = choose|step: Single| #[trigger]
                is_step(millis, sample_rate, step) && is_sum(level, step, moved);
            lemma_step_size(millis, n, sample_rate, step);
            let q = step.value();
            lemma_unit_error(l + q, moved);
            assert(10 * (q * n) >= 999 * one) by (nonlinear_arith)
                requires
                    q * (millis * n) >= 999 * one,
                    0 <= millis <= 10,
                    q >= 0,
                    n > 0,
            {
                assert(q * (millis * n) == millis * (q * n));
                assert(q * n >= 0);
                assert(millis * (q * n) <= 10 * (q * n));
            }
            let d = v - l;
            assert(8388608 * (d * n) >= 8388607 * (q * n) - one * n) by (nonlinear_arith)
                requires
                    8388608 * d >= 8388607 * q - one,
                    n > 0,
            ;
            assert(one * n <= 384000 * one) by (nonlinear_arith)
                requires
                    n <= 384000,
                    one > 0,
            ;
            assert(d * n >= 90 * one);
            let r = least_rise(n);
            vstd::arithmetic::div_mod::lemma_fundamental_div_mod(80 * one, n);
            vstd::arithmetic::div_mod::lemma_mod_bound(80 * one, n);
            assert(d >= r) by (nonlinear_arith)
                requires
                    d * n >= 90 * one,
                    80 * one == n * (r - 1) + (80 * one) % n,
                    (80 * one) % n >= 0,
                    0 < n <= one,
            ;
        },
        Motion::Fall { millis } => {
            let step = choose|step: Single| #[trigger]
                is_step(millis, sample_rate, step) && is_difference(level, step, moved);
            lemma_step_size(millis, n, sample_rate, step);
            lemma_negated(step);
            let q = step.value();
            lemma_unit_error(l - q, moved);
            assert(1500 * (q * n) >= 999 * one) by (nonlinear_arith)
                requires
                    q * (millis * n) >= 999 * one,
                    0 <= millis <= 1500,
                    q >= 0,
                    n > 0,
            {
                assert(q * (millis * n) == millis * (q * n));
                assert(q * n >= 0);
                assert(millis * (q * n) <= 1500 * (q * n));
            }
            let d = l - v;
            assert(8388608 * (d * n) >= 8388607 * (q * n) - one * n) by (nonlinear_arith)
                requires
                    8388608 * d >= 8388607 * q - one,
                    n > 0,
            ;
            assert(one * n <= 384000 * one) by (nonlinear_arith)
                requires
                    n <= 384000,
                    one > 0,
            ;
            assert(15 * (d * n) >= 9 * one);
            let r = least_fall(n);
            vstd::arithmetic::div_mod::lemma_fundamental_div_mod(8 * one, 15 * n);
            vstd::arithmetic::div_mod::lemma_mod_bound(8 * one, 15 * n);
            assert(d >= r) by (nonlinear_arith)
                requires
                    15 * (d * n) >= 9 * one,
                    8 * one == (15 * n) * (r - 1) + (8 * one) % (15 * n),
                    (8 * one) % (15 * n) >= 0,
                    0 < 15 * n <= one,
            ;
        },
    }
}

/// Each of `moves` is computed from the voice as it is before it.
pub open spec fn is_computed(
    voice: Voice,
    sample_rate: Single,
    moves: Seq<(Single, Single)>,
) -> bool {
    forall|i: int|
        0 <= i < moves.len() ==> is_moved(
            after_samples(voice, moves.take(i)),
            sample_rate,
            (#[trigger] moves[i]).0,
        )
}

/// A computed sample moves the level as is due, and keeps it in range.
proof fn lemma_computed_sample(
    voice: Voice,
    n: int,
    sample_rate: Single,
    moved: Single,
    next_phase: Single,
)
    requires
        voice.level_in_range(),
        8 <= n <= 384000,
        sample_rate.is_finite(),
        sample_rate.value() == n * Single::one().value(),
        is_moved(voice, sample_rate, moved),
    ensures
        voice.after_sample(moved, next_phase).level_in_range(),
        moves_by(voice, moved, least_rise(n), least_fall(n)),
{
    lemma_constants();
    assert(sample_rate.value() >= 0) by (nonlinear_arith)
        requires
            sample_rate.value() == n * Single::one().value(),
            n > 0,
            Single::one().value() > 0,
    ;
    lemma_moves_as_due(voice, sample_rate, moved);
    law_level_stays_in_range(voice, moved, next_phase);
    lemma_computed_move(voice, n, sample_rate, moved);
}

/// What is computed up to a move is computed.
proof fn lemma_is_computed_front(voice: Voice, sample_rate: Single, moves: Seq<(Single, Single)>)
    requires
        is_computed(voice, sample_rate, moves),
        moves.len() > 0,
    ensures
        is_computed(voice, sample_rate, moves.drop_last()),
        is_moved(after_samples(voice, moves.drop_last()), sample_rate, moves.last().0),
{
    let front = moves.drop_last();
    assert(moves.take(moves.len() - 1) =~= front);
    assert(moves[moves.len() - 1] == moves.last());
    assert forall|i: int| 0 <= i < front.len() implies is_moved(
        after_samples(voice, front.take(i)),
        sample_rate,
        (#[trigger] front[i]).0,
    ) by {
        assert(front.take(i) =~= moves.take(i));
        assert(front[i] == moves[i]);
    }
}

#[verifier::spinoff_prover]
#[verifier::rlimit(40)]
proof fn lemma_computed_keeps_moving(
    voice: Voice,
    n: int,
    sample_rate: Single,
    moves: Seq<(Single, Single)>,
)
    requires
        voice.level_in_range(),
        8 <= n <= 384000,
        sample_rate.is_finite(),
        sample_rate.value() == n * Single::one().value(),
        is_computed(voice, sample_rate, moves),
    ensures
        after_samples(voice, moves).level_in_range(),
        keeps_moving(voice, moves, least_rise(n), least_fall(n)),
    decreases moves.len(),
{
    if moves.len() > 0 {
        let front = moves.drop_last();
        let before = after_samples(voice, front);
        let (rise, fall) = (least_rise(n), least_fall(n));
        lemma_is_computed_front(voice, sample_rate, moves);
        lemma_computed_keeps_moving(voice, n, sample_rate, front);
        lemma_computed_sample(before, n, sample_rate, moves.last().0, moves.last().1);
        lemma_keeps_moving_extends(voice, moves, rise, fall);
    }
}

/// Every voice frees itself: at any whole sample rate from 8 to 384000, with each level as
/// it is computed, a voice is idle and silent after twice as many samples as there are in a
/// second, and gives no tone from then on.
pub proof fn law_computed_voice_frees_itself(
    voice: Voice,
    n: int,
    sample_rate: Single,
    moves: Seq<(Single, Single)>,
)
    requires
        voice.level_in_range(),
        voice.state == EnvState::Idle ==> voice.env_level.value() == 0,
        8 <= n <= 384000,
        sample_rate.is_finite(),
        sample_rate.value() == n * Single::one().value(),
        is_computed(voice, sample_rate, moves),
        moves.len() >= 2 * n,
    ensures
        after_samples(voice, moves).state == EnvState::Idle,
        after_samples(voice, moves).env_level.value() == 0,
        voice.state != EnvState::Idle ==> after_samples(voice, moves).env_level == Single::zero(),
        forall|moved: Single, waveform: Waveform|
            (#[trigger] after_samples(voice, moves).tone(moved, waveform)) is None,
{
    lemma_infinity_is_far();
    lemma_computed_keeps_moving(voice, n, sample_rate, moves);
    let one = Single::one().value();
    let (rise, fall) = (least_rise(n), least_fall(n));
    vstd::arithmetic::div_mod::lemma_fundamental_div_mod(80 * one, n);
    vstd::arithmetic::div_mod::lemma_mod_bound(80 * one, n);
    vstd::arithmetic::div_mod::lemma_fundamental_div_mod(8 * one, 15 * n);
    vstd::arithmetic::div_mod::lemma_mod_bound(8 * one, 15 * n);
    assert(5 * (rise * (10 * n)) >= 4 * (1000 * one)) by (nonlinear_arith)
        requires
            80 * one == n * (rise - 1) + (80 * one) % n,
            (80 * one) % n < n,
    ;
    assert(5 * (fall * (1500 * n)) >= 4 * (1000 * one)) by (nonlinear_arith)
        requires
            8 * one == (15 * n) * (fall - 1) + (8 * one) % (15 * n),
            (8 * one) % (15 * n) < 15 * n,
    ;
    law_voice_frees_itself(voice, moves, rise, fall, n);
}

/// `result` is `input` plus the share `share` of `delayed`.
pub open spec fn is_mix(input: Single, delayed: Single, share: Single, result: Single) -> bool {
    exists|part: Single| #[trigger]
        is_product(delayed, share, part) && is_sum(input, part, result)
}

/// No mix is further from zero than the mix of the bounds.
#[verifier::spinoff_prover]
#[verifier::rlimit(40)]
proof fn lemma_mix_bounded(
    input: Single,
    delayed: Single,
    share: Single,
    result: Single,
    input_bound: Single,
    line_bound: Single,
    size: Single,
    result_bound: Single,
)
    requires
        -input_bound.value() <= input.value() <= input_bound.value(),
        -line_bound.value() <= delayed.value() <= line_bound.value(),
        size.value() >= 0,
        -size.value() <= share.value() <= size.value(),
        is_mix(input, delayed, share, result),
        is_mix(input_bound, line_bound, size, result_bound),
    ensures
        !result.is_nan(),
        -result_bound.value() <= result.value() <= result_bound.value(),
{
    lemma_constants();
    lemma_infinity_is_far();
    let one = Single::one().value();
    let part = choose|part: Single| #[trigger]
        is_product(delayed, share, part) && is_sum(input, part, result);
    let most = choose|part: Single| #[trigger]
        is_product(line_bound, size, part) && is_sum(input_bound, part, result_bound);
    let (d, s, b, z) = (delayed.value(), share.value(), line_bound.value(), size.value());
    assert(-(b * z) <= d * s <= b * z && (d * s) * one <= (b * z) * one && (-(b * z)) * one <= (d
        * s) * one) by (nonlinear_arith)
        requires
            -b <= d <= b,
            -z <= s <= z,
            one > 0,
    {
        assert((b - d) * (z + s) >= 0 && (b + d) * (z - s) >= 0);
        assert((b - d) * (z - s) >= 0 && (b + d) * (z + s) >= 0);
        assert((b - d) * (z + s) + (b + d) * (z - s) == 2 * (b * z) - 2 * (d * s));
        assert((b - d) * (z - s) + (b + d) * (z + s) == 2 * (b * z) + 2 * (d * s));
    }
    lemma_rounding_monotone(d * s, one, part, b * z, one, most);
    lemma_rounds_negated(b * z, one, most);
    lemma_negated(most);
    lemma_rounding_monotone(-(b * z), one, most.negated(), d * s, one, part);
    if most.is_finite() {
        lemma_finite_value(most);
        lemma_finite_by_value(part);
        let x = input_bound.value() + most.value();
        lemma_rounding_monotone(input.value() + part.value(), 1, result, x, 1, result_bound);
        lemma_rounds_negated(x, 1, result_bound);
        lemma_negated(result_bound);
        lemma_rounding_monotone(
            -x,
            1,
            result_bound.negated(),
            input.value() + part.value(),
            1,
            result,
        );
    } else {
        assert(b * z >= 0) by (nonlinear_arith)
            requires
                -b <= d <= b,
                z >= 0,
        ;
        lemma_rounds_not_below(b * z, one, most, Single::zero());
        assert(most.value() == units(INFINITY_BITS as int));
    }
}

/// The echo never blows up: where the bound of the line, mixed with the bound of the input by
/// the size of the feedback, stays within itself, a sample that is computed from an input and
/// the delayed sample within their bounds keeps the bound of the line when it is stored; and
/// what is heard is no further from zero than the mix of the bounds by one half.
pub proof fn law_computed_echo_stays_bounded(
    line: Seq<Single>,
    feedback: Single,
    input: Single,
    stored: Single,
    heard: Single,
    input_bound: Single,
    line_bound: Single,
    size: Single,
    stored_bound: Single,
    heard_bound: Single,
)
    requires
        line.len() > 0,
        line_bound.is_finite(),
        bounded(line, line_bound.value()),
        input_bound.is_finite(),
        input.is_finite(),
        -input_bound.value() <= input.value() <= input_bound.value(),
        feedback.is_finite(),
        size.is_finite(),
        size.value() == if feedback.value() < 0 {
            -feedback.value()
        } else {
            feedback.value()
        },
        is_mix(input_bound, line_bound, size, stored_bound),
        stored_bound.le(line_bound),
        is_mix(input_bound, line_bound, Single::half(), heard_bound),
        is_mix(input, line[0], feedback, stored),
        is_mix(input, line[0], Single::half(), heard),
    ensures
        bounded(line.drop_first().push(stored), line_bound.value()),
        !heard.is_nan(),
        -heard_bound.value() <= heard.value() <= heard_bound.value(),
{
    lemma_constants();
    lemma_infinity_is_far();
    assert(!line[0].is_nan());
    lemma_mix_bounded(
        input,
        line[0],
        feedback,
        stored,
        input_bound,
        line_bound,
        size,
        stored_bound,
    );
    lemma_mix_bounded(
        input,
        line[0],
        Single::half(),
        heard,
        input_bound,
        line_bound,
        Single::half(),
        heard_bound,
    );
    law_store_keeps_bound(line, stored, line_bound.value());
}

/// As many computed stores as the ring has slots go once round it: the position is back where
/// it was, and each slot, from there on, holds the mix of its input and of what the slot held
/// at the start of the round.
pub proof fn law_computed_round(
    slots: Seq<Single>,
    position: int,
    feedback: Single,
    inputs: Seq<Single>,
    samples: Seq<Single>,
    k: int,
)
    requires
        0 <= position < slots.len(),
        inputs.len() == slots.len(),
        samples.len() == slots.len(),
        forall|j: int|
            0 <= j < samples.len() ==> ({
                let (before, slot) = ring_after(slots, position, samples.take(j));
                is_mix(inputs[j], before[slot], feedback, #[trigger] samples[j])
            }),
        0 <= k < slots.len(),
    ensures
        ({
            let slot = (position + k) % (slots.len() as int);
            let (after, at) = ring_after(slots, position, samples);
            &&& at == position
            &&& is_mix(inputs[k], slots[slot], feedback, after[slot])
        }),
{
    law_round_rewrites_every_slot(slots, position, samples, k);
    assert(samples[k] == samples[k]);
}

} // verus!
