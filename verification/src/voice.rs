//! One voice of the synthesizer: its pitch, its oscillator phase and its
//! attack/decay envelope.
//!
//! A voice sounds from the moment a note starts it until its envelope has fallen
//! back to zero. The sums and products of the audio path are made by the caller;
//! the voice decides which of them are due, and what their results mean.

use crate::single::{lemma_constants, Single};
use vstd::prelude::*;

verus! {

/// How long a note takes to rise to full level.
pub const ATTACK_MILLIS: u32 = 10;

/// How long a note takes to fall back to silence.
pub const DECAY_MILLIS: u32 = 1500;

/// The metronome rises fast enough to click ...
pub const CLICK_ATTACK_MILLIS: u32 = 2;

/// ... and falls fast enough to stay staccato.
pub const CLICK_DECAY_MILLIS: u32 = 50;

/// The level of a square wave, in tenths of full scale.
pub const SQUARE_TENTHS: i32 = 3;

/// Who asked for a note.
#[derive(Clone, Copy, Debug, PartialEq, Eq, Structural)]
pub enum VoiceId {
    /// A key of the computer keyboard.
    Key(char),
    /// A key of a MIDI keyboard, by its note number.
    Midi(u8),
    /// A string of the tanpura, by its name.
    Drone(char),
    /// The click of the metronome.
    Metronome,
}

/// The pitch of a note.
#[derive(Clone, Copy, Debug, PartialEq, Eq, Structural)]
pub enum Pitch {
    /// A frequency in hundredths of a hertz.
    Hundredths(u32),
    /// A note of the equal-tempered scale, by its MIDI note number: number 69 is
    /// 440 hertz, and twelve notes make an octave.
    Tempered(u8),
}

/// The timbre that all voices share.
#[derive(Clone, Copy, Debug, PartialEq, Eq, Structural)]
pub enum Waveform {
    Sine,
    Square,
    Sawtooth,
}

/// Where a voice is in its envelope.
#[derive(Clone, Copy, Debug, PartialEq, Eq, Structural)]
pub enum EnvState {
    /// Silent, and free for the next note.
    Idle,
    /// Rising to full level.
    Attack,
    /// Falling back to silence.
    Decay,
}

/// How the level of a voice moves over one sample: by the sample's share of the
/// time that the whole way between silence and full level takes.
#[derive(Clone, Copy, Debug, PartialEq, Eq, Structural)]
pub enum Motion {
    Still,
    Rise { millis: u32 },
    Fall { millis: u32 },
}

/// What the oscillator gives at a phase.
#[derive(Clone, Copy, Debug, PartialEq, Eq, Structural)]
pub enum Shape {
    /// The sine of the phase, one turn per unit.
    Sine,
    /// A constant, in tenths of full scale.
    Flat(i32),
    /// A line from minus one at phase zero to one at phase one.
    Ramp,
}

/// One sample of a sounding voice: the shape at the phase, scaled by the level.
#[derive(Clone, Copy, Debug, PartialEq, Eq, Structural)]
pub struct Tone {
    pub shape: Shape,
    pub phase: Single,
    pub level: Single,
}

/// A voice.
#[derive(Clone, Copy, Debug, PartialEq, Eq, Structural)]
pub struct Voice {
    pub id: VoiceId,
    pub frequency: Pitch,
    pub phase: Single,
    pub env_level: Single,
    pub state: EnvState,
}

/// The shape of a waveform at a phase: the square wave is high in the first half of
/// the turn and low in the rest.
pub open spec fn shape_at(waveform: Waveform, phase: Single) -> Shape {
    match waveform {
        Waveform::Sine => Shape::Sine,
        Waveform::Square => if phase.lt(Single::half()) {
            Shape::Flat(SQUARE_TENTHS)
        } else {
            Shape::Flat((-SQUARE_TENTHS) as i32)
        },
        Waveform::Sawtooth => Shape::Ramp,
    }
}

impl Voice {
    /// The envelope after a sample, where `moved` is the level that the sample's
    /// motion leads to: a rise ends at one and turns into a fall, and a fall ends at
    /// zero and leaves the voice idle.
    pub open spec fn envelope_after(self, moved: Single) -> (EnvState, Single) {
        match self.state {
            EnvState::Idle => (EnvState::Idle, self.env_level),
            EnvState::Attack => if Single::one().le(moved) {
                (EnvState::Decay, Single::one())
            } else {
                (EnvState::Attack, moved)
            },
            EnvState::Decay => if moved.le(Single::zero()) {
                (EnvState::Idle, Single::zero())
            } else {
                (EnvState::Decay, moved)
            },
        }
    }

    /// The voice after a sample.
    pub open spec fn after_sample(self, moved: Single, next_phase: Single) -> Voice {
        if self.state == EnvState::Idle {
            self
        } else {
            let (state, env_level) = self.envelope_after(moved);
            Voice { state, env_level, phase: next_phase, ..self }
        }
    }

    /// What the voice sounds like over a sample: the phase is the one from before it, the
    /// level the one from after it.
    pub open spec fn tone(self, moved: Single, waveform: Waveform) -> Option<Tone> {
        if self.state == EnvState::Idle {
            None
        } else {
            Some(
                Tone {
                    shape: shape_at(waveform, self.phase),
                    phase: self.phase,
                    level: self.envelope_after(moved).1,
                },
            )
        }
    }

    /// The voice with a new note started on it. Level and phase go on from where they
    /// are, so that the sound does not jump.
    pub open spec fn started(self, id: VoiceId, frequency: Pitch) -> Voice {
        Voice { id, frequency, state: EnvState::Attack, ..self }
    }

    /// The voice with its note let go.
    pub open spec fn released(self) -> Voice {
        Voice { state: EnvState::Decay, ..self }
    }

    /// The level lies between silence and full level.
    pub open spec fn level_in_range(self) -> bool {
        Single::zero().le(self.env_level) && self.env_level.le(Single::one())
    }

    /// The phase lies within one turn.
    pub open spec fn phase_in_turn(self) -> bool {
        Single::zero().le(self.phase) && self.phase.lt(Single::one())
    }

    /// What every voice keeps: its level lies between silence and full level, it is
    /// silent while it is idle, and its phase lies within one turn.
    pub open spec fn valid(self) -> bool {
        &&& self.level_in_range()
        &&& self.state == EnvState::Idle ==> self.env_level.value() == 0
        &&& self.phase_in_turn()
    }

    /// The motion that is due over the next sample.
    pub open spec fn spec_motion(self) -> Motion {
        let click = self.id == VoiceId::Metronome;
        match self.state {
            EnvState::Idle => Motion::Still,
            EnvState::Attack => Motion::Rise {
                millis: if click { CLICK_ATTACK_MILLIS } else { ATTACK_MILLIS },
            },
            EnvState::Decay => Motion::Fall {
                millis: if click { CLICK_DECAY_MILLIS } else { DECAY_MILLIS },
            },
        }
    }

    /// A silent voice.
    pub open spec fn spec_new() -> Voice {
        Voice {
            id: VoiceId::Key(' '),
            frequency: Pitch::Hundredths(0),
            phase: Single::zero(),
            env_level: Single::zero(),
            state: EnvState::Idle,
        }
    }

    /// A silent voice.
    #[verifier::when_used_as_spec(spec_new)]
    pub fn new() -> (r: Voice)
        ensures
            r == Voice::spec_new(),
    {
        Voice {
            id: VoiceId::Key(' '),
            frequency: Pitch::Hundredths(0),
            phase: Single::zero(),
            env_level: Single::zero(),
            state: EnvState::Idle,
        }
    }

    /// How the level moves over the next sample.
    #[verifier::when_used_as_spec(spec_motion)]
    pub fn motion(self) -> (r: Motion)
        ensures
            r == self.spec_motion(),
    {
        let click: bool = self.id == VoiceId::Metronome;
        match self.state {
            EnvState::Idle => Motion::Still,
            EnvState::Attack => Motion::Rise {
                millis: if click { CLICK_ATTACK_MILLIS } else { ATTACK_MILLIS },
            },
            EnvState::Decay => Motion::Fall {
                millis: if click { CLICK_DECAY_MILLIS } else { DECAY_MILLIS },
            },
        }
    }

    /// Takes the voice over one sample. `moved` is the level that [`Voice::motion`]
    /// leads to, and `next_phase` the phase one sample on. The sample itself has the
    /// phase from before and the level from after; an idle voice has none and keeps
    /// still.
    pub fn next_sample(
        &mut self,
        moved: Single,
        next_phase: Single,
        waveform: Waveform,
    ) -> (r: Option<Tone>)
        ensures
            *final(self) == old(self).after_sample(moved, next_phase),
            r == old(self).tone(moved, waveform),
    {
        match self.state {
            EnvState::Idle => {
                return None;
            },
            EnvState::Attack => {
                if Single::one().at_most(moved) {
                    self.env_level = Single::one();
                    self.state = EnvState::Decay;
                } else {
                    self.env_level = moved;
                }
            },
            EnvState::Decay => {
                if moved.at_most(Single::zero()) {
                    self.env_level = Single::zero();
                    self.state = EnvState::Idle;
                } else {
                    self.env_level = moved;
                }
            },
        }
        let phase: Single = self.phase;
        let shape: Shape = match waveform {
            Waveform::Sine => Shape::Sine,
            Waveform::Square => if phase.below(Single::half()) {
                Shape::Flat(SQUARE_TENTHS)
            } else {
                Shape::Flat(-SQUARE_TENTHS)
            },
            Waveform::Sawtooth => Shape::Ramp,
        };
        self.phase = next_phase;
        Some(Tone { shape, phase, level: self.env_level })
    }
}

/// A level between silence and full level stays there, as long as a rise does not
/// lower it and a fall does not raise it.
pub proof fn law_level_stays_in_range(voice: Voice, moved: Single, next_phase: Single)
    requires
        voice.level_in_range(),
        voice.motion() is Rise ==> voice.env_level.le(moved),
        voice.motion() is Fall ==> moved.le(voice.env_level),
    ensures
        voice.after_sample(moved, next_phase).level_in_range(),
{
    lemma_constants();
}

/// A silent voice is valid, and a valid voice is so after a sample too: its level stays
/// between silence and full level, it is silent once it is idle, and its phase stays
/// within one turn, as long as a rise does not lower the level, a fall does not raise it,
/// and the phase that comes next lies within one turn.
pub proof fn law_voice_stays_valid(voice: Voice, moved: Single, next_phase: Single)
    requires
        voice.valid(),
        voice.motion() is Rise ==> voice.env_level.le(moved),
        voice.motion() is Fall ==> moved.le(voice.env_level),
        Single::zero().le(next_phase),
        next_phase.lt(Single::one()),
    ensures
        Voice::new().valid(),
        voice.after_sample(moved, next_phase).valid(),
{
    lemma_constants();
}

/// Who asked for a note makes no difference, but for the metronome: voices that are equal
/// but for such ids move alike, sound alike, and are equal but for the ids after a sample.
pub proof fn law_notes_move_alike(
    voice: Voice,
    id: VoiceId,
    moved: Single,
    next_phase: Single,
    waveform: Waveform,
)
    requires
        voice.id != VoiceId::Metronome,
        id != VoiceId::Metronome,
    ensures
        ({
            let other = Voice { id, ..voice };
            &&& other.motion() == voice.motion()
            &&& other.tone(moved, waveform) == voice.tone(moved, waveform)
            &&& other.after_sample(moved, next_phase) == (Voice {
                id,
                ..voice.after_sample(moved, next_phase)
            })
        }),
{
}

/// The metronome rises and falls faster than any note: of two voices that are equal but
/// for the id, the click takes the shorter time for the whole way, and where its level has
/// moved at least as far on as the level of the note, it is at least as far on after the
/// sample: no lower in a rise, and no higher in a fall.
pub proof fn law_click_is_quicker(
    note: Voice,
    click_moved: Single,
    note_moved: Single,
    next_phase: Single,
)
    requires
        note.id != VoiceId::Metronome,
        note.state == EnvState::Attack ==> note_moved.le(click_moved),
        note.state == EnvState::Decay ==> click_moved.le(note_moved),
    ensures
        ({
            let click = Voice { id: VoiceId::Metronome, ..note };
            let click_after = click.after_sample(click_moved, next_phase);
            let note_after = note.after_sample(note_moved, next_phase);
            match note.state {
                EnvState::Idle => click.motion() == note.motion() && click_after.env_level
                    == note_after.env_level,
                EnvState::Attack => {
                    &&& click.motion() matches Motion::Rise { millis: quick }
                    &&& note.motion() matches Motion::Rise { millis: slow }
                    &&& 0 < quick < slow
                    &&& note_after.env_level.le(click_after.env_level)
                },
                EnvState::Decay => {
                    &&& click.motion() matches Motion::Fall { millis: quick }
                    &&& note.motion() matches Motion::Fall { millis: slow }
                    &&& 0 < quick < slow
                    &&& click_after.env_level.le(note_after.env_level)
                },
            }
        }),
{
    lemma_constants();
}

/// Over samples alone an envelope only goes forward: attack, decay, idle; and an
/// idle voice stays as it is.
pub proof fn law_envelope_goes_forward(voice: Voice, moved: Single, next_phase: Single)
    ensures
        ({
            let next = voice.after_sample(moved, next_phase);
            match voice.state {
                EnvState::Attack => next.state == EnvState::Attack || next.state == EnvState::Decay,
                EnvState::Decay => next.state == EnvState::Decay || next.state == EnvState::Idle,
                EnvState::Idle => next == voice,
            }
        }),
{
}

/// A voice turns from attack to decay at full level and at no other, and from decay
/// to idle at silence and at no other.
pub proof fn law_envelope_turns_at_the_ends(voice: Voice, moved: Single, next_phase: Single)
    ensures
        ({
            let next = voice.after_sample(moved, next_phase);
            &&& voice.state == EnvState::Attack ==> (next.state == EnvState::Decay
                <==> Single::one().le(moved))
            &&& voice.state == EnvState::Attack && next.state == EnvState::Decay ==> next.env_level
                == Single::one()
            &&& voice.state == EnvState::Decay ==> (next.state == EnvState::Idle <==> moved.le(
                Single::zero(),
            ))
            &&& voice.state == EnvState::Decay && next.state == EnvState::Idle ==> next.env_level
                == Single::zero()
        }),
{
}

/// The voice after one sample for each of `moves` in turn, each a level that the motion
/// leads to and the phase that comes with it.
pub open spec fn after_samples(voice: Voice, moves: Seq<(Single, Single)>) -> Voice
    decreases moves.len(),
{
    if moves.len() == 0 {
        voice
    } else {
        after_samples(voice, moves.drop_last()).after_sample(moves.last().0, moves.last().1)
    }
}

/// Over a sample that leads `before` to the level `moved`, the level moves as is due: up
/// by `rise` at the least where the voice rises, down by `fall` at the least where it
/// falls.
pub open spec fn moves_by(before: Voice, moved: Single, rise: int, fall: int) -> bool {
    match before.motion() {
        Motion::Still => true,
        Motion::Rise { .. } => !moved.is_nan() && moved.value() >= before.env_level.value() + rise,
        Motion::Fall { .. } => !moved.is_nan() && moved.value() <= before.env_level.value() - fall,
    }
}

/// The level moves as is due over each of `moves`.
pub open spec fn keeps_moving(
    voice: Voice,
    moves: Seq<(Single, Single)>,
    rise: int,
    fall: int,
) -> bool {
    forall|i: int|
        0 <= i < moves.len() ==> moves_by(
            after_samples(voice, moves.take(i)),
            (#[trigger] moves[i]).0,
            rise,
            fall,
        )
}

proof fn lemma_after_samples_add(
    voice: Voice,
    first: Seq<(Single, Single)>,
    then: Seq<(Single, Single)>,
)
    ensures
        after_samples(voice, first + then) == after_samples(after_samples(voice, first), then),
    decreases then.len(),
{
    if then.len() == 0 {
        assert(first + then =~= first);
    } else {
        lemma_after_samples_add(voice, first, then.drop_last());
        assert((first + then).drop_last() =~= first + then.drop_last());
    }
}

proof fn lemma_keeps_moving_splits(
    voice: Voice,
    moves: Seq<(Single, Single)>,
    rise: int,
    fall: int,
    n: int,
)
    requires
        keeps_moving(voice, moves, rise, fall),
        0 <= n <= moves.len(),
    ensures
        keeps_moving(voice, moves.take(n), rise, fall),
        keeps_moving(after_samples(voice, moves.take(n)), moves.skip(n), rise, fall),
{
    let (first, rest) = (moves.take(n), moves.skip(n));
    assert forall|i: int| 0 <= i < first.len() implies moves_by(
        after_samples(voice, first.take(i)),
        (#[trigger] first[i]).0,
        rise,
        fall,
    ) by {
        assert(first.take(i) =~= moves.take(i));
        assert(first[i] == moves[i]);
    }
    assert forall|i: int| 0 <= i < rest.len() implies moves_by(
        after_samples(after_samples(voice, first), rest.take(i)),
        (#[trigger] rest[i]).0,
        rise,
        fall,
    ) by {
        lemma_after_samples_add(voice, first, rest.take(i));
        assert(first + rest.take(i) =~= moves.take(n + i));
        assert(rest[i] == moves[n + i]);
    }
}

/// One more move that is as is due keeps it so.
#[verifier::spinoff_prover]
#[verifier::rlimit(40)]
pub proof fn lemma_keeps_moving_extends(
    voice: Voice,
    moves: Seq<(Single, Single)>,
    rise: int,
    fall: int,
)
    requires
        moves.len() > 0,
        keeps_moving(voice, moves.drop_last(), rise, fall),
        moves_by(after_samples(voice, moves.drop_last()), moves.last().0, rise, fall),
    ensures
        keeps_moving(voice, moves, rise, fall),
{
    let front = moves.drop_last();
    assert(moves.take(moves.len() - 1) =~= front);
    assert forall|i: int| 0 <= i < moves.len() implies moves_by(
        after_samples(voice, moves.take(i)),
        (#[trigger] moves[i]).0,
        rise,
        fall,
    ) by {
        if i < front.len() {
            assert(front.take(i) =~= moves.take(i));
            assert(front[i] == moves[i]);
        }
    }
}

/// How far a voice has come after `moves`: while it still rises, up by `rise` a move, and
/// below full level; from a fall, down by `fall` a move, and above silence until it is
/// idle.
#[verifier::spinoff_prover]
#[verifier::rlimit(40)]
proof fn lemma_progress(voice: Voice, moves: Seq<(Single, Single)>, rise: int, fall: int)
    requires
        voice.level_in_range(),
        rise > 0,
        fall > 0,
        keeps_moving(voice, moves, rise, fall),
    ensures
        ({
            let after = after_samples(voice, moves);
            let n = moves.len() as int;
            &&& after.level_in_range()
            &&& after.state == EnvState::Attack ==> {
                &&& voice.state == EnvState::Attack
                &&& after.env_level.value() >= voice.env_level.value() + n * rise
                &&& n > 0 ==> after.env_level.value() < Single::one().value()
            }
            &&& voice.state != EnvState::Attack && after.state == EnvState::Decay ==> {
                &&& after.env_level.value() <= voice.env_level.value() - n * fall
                &&& n > 0 ==> after.env_level.value() > 0
            }
            &&& after.state == EnvState::Idle ==> if voice.state == EnvState::Idle {
                after == voice
            } else {
                after.env_level == Single::zero()
            }
            &&& voice.state == EnvState::Idle ==> after.state == EnvState::Idle
        }),
    decreases moves.len(),
{
    lemma_constants();
    if moves.len() > 0 {
        let last = moves.len() - 1;
        let front = moves.drop_last();
        let before = after_samples(voice, front);
        assert(moves.take(last) =~= front);
        lemma_keeps_moving_splits(voice, moves, rise, fall, last);
        lemma_progress(voice, front, rise, fall);
        assert(moves[last] == moves.last());
        law_level_stays_in_range(before, moves.last().0, moves.last().1);
        assert(moves.len() * rise == front.len() * rise + rise && moves.len() * fall == front.len()
            * fall + fall) by (nonlinear_arith)
            requires
                moves.len() == front.len() + 1,
        ;
    }
}

/// How far a level has to move until its voice is idle: down to silence, and before that
/// up to full level, where the last step may be cut short.
pub open spec fn way_to_idle(voice: Voice, step: int) -> int {
    match voice.state {
        EnvState::Idle => 0,
        EnvState::Attack => 2 * Single::one().value() - voice.env_level.value() + step,
        EnvState::Decay => voice.env_level.value(),
    }
}

proof fn lemma_way_shrinks(voice: Voice, moves: Seq<(Single, Single)>, step: int)
    requires
        voice.level_in_range(),
        step > 0,
        keeps_moving(voice, moves, step, step),
    ensures
        ({
            let after = after_samples(voice, moves);
            after.state == EnvState::Idle || way_to_idle(after, step) <= way_to_idle(voice, step)
                - moves.len() * step
        }),
    decreases moves.len(),
{
    lemma_constants();
    if moves.len() > 0 {
        let last = moves.len() - 1;
        let front = moves.drop_last();
        assert(moves.take(last) =~= front);
        lemma_keeps_moving_splits(voice, moves, step, step, last);
        lemma_progress(voice, front, step, step);
        lemma_way_shrinks(voice, front, step);
        assert(moves[last] == moves.last());
        assert(moves.len() * step == front.len() * step + step) by (nonlinear_arith)
            requires
                moves.len() == front.len() + 1,
        ;
    }
}

/// Every note ends: a voice whose level keeps moving is idle, and silent, once its steps
/// make up more than its way up to full level and down to silence.
pub proof fn law_every_note_ends(voice: Voice, moves: Seq<(Single, Single)>, step: int)
    requires
        voice.level_in_range(),
        step > 0,
        keeps_moving(voice, moves, step, step),
        moves.len() * step > way_to_idle(voice, step),
    ensures
        after_samples(voice, moves).state == EnvState::Idle,
        voice.state != EnvState::Idle ==> after_samples(voice, moves).env_level == Single::zero(),
{
    lemma_constants();
    lemma_progress(voice, moves, step, step);
    lemma_way_shrinks(voice, moves, step);
}

/// A note takes no longer than its attack and its decay: with `up` moves of `rise` each
/// enough to pass full level, and `down` moves of `fall` each enough for the whole way
/// down, a voice is idle and silent after both together, and gives no tone from then on.
#[verifier::spinoff_prover]
#[verifier::rlimit(40)]
pub proof fn law_note_takes_attack_and_decay(
    voice: Voice,
    moves: Seq<(Single, Single)>,
    rise: int,
    fall: int,
    up: nat,
    down: nat,
)
    requires
        voice.level_in_range(),
        voice.state == EnvState::Idle ==> voice.env_level.value() == 0,
        rise > 0,
        fall > 0,
        keeps_moving(voice, moves, rise, fall),
        up * rise > Single::one().value() - voice.env_level.value(),
        down * fall >= Single::one().value(),
        moves.len() >= up + down,
    ensures
        after_samples(voice, moves).state == EnvState::Idle,
        after_samples(voice, moves).env_level.value() == 0,
        voice.state != EnvState::Idle ==> after_samples(voice, moves).env_level == Single::zero(),
        forall|moved: Single, waveform: Waveform|
            (#[trigger] after_samples(voice, moves).tone(moved, waveform)) is None,
{
    lemma_constants();
    let (first, rest) = (moves.take(up as int), moves.skip(up as int));
    let middle = after_samples(voice, first);
    lemma_keeps_moving_splits(voice, moves, rise, fall, up as int);
    lemma_progress(voice, first, rise, fall);
    lemma_progress(middle, rest, rise, fall);
    lemma_progress(voice, moves, rise, fall);
    lemma_after_samples_add(voice, first, rest);
    assert(first + rest =~= moves);
    assert(rest.len() * fall >= down * fall) by (nonlinear_arith)
        requires
            rest.len() >= down,
            fall > 0,
    ;
    assert(rest.len() > 0) by (nonlinear_arith)
        requires
            rest.len() * fall > 0,
    ;
}

/// Every voice frees itself within two seconds: at a sample rate of eight or more,
/// where each step is at least four fifths of the sample's share of the attack or the
/// decay of a note, which leaves room for rounding, a voice is idle and silent after
/// twice as many samples as there are in a second, and gives no tone from then on.
pub proof fn law_voice_frees_itself(
    voice: Voice,
    moves: Seq<(Single, Single)>,
    rise: int,
    fall: int,
    sample_rate: int,
)
    requires
        voice.level_in_range(),
        voice.state == EnvState::Idle ==> voice.env_level.value() == 0,
        sample_rate >= 8,
        5 * (rise * (ATTACK_MILLIS * sample_rate)) >= 4 * (1000 * Single::one().value()),
        5 * (fall * (DECAY_MILLIS * sample_rate)) >= 4 * (1000 * Single::one().value()),
        keeps_moving(voice, moves, rise, fall),
        moves.len() >= 2 * sample_rate,
    ensures
        after_samples(voice, moves).state == EnvState::Idle,
        after_samples(voice, moves).env_level.value() == 0,
        voice.state != EnvState::Idle ==> after_samples(voice, moves).env_level == Single::zero(),
        forall|moved: Single, waveform: Waveform|
            (#[trigger] after_samples(voice, moves).tone(moved, waveform)) is None,
{
    lemma_constants();
    let one = Single::one().value();
    let up = (sample_rate / 80 + 1) as nat;
    let down = (2 * sample_rate - up) as nat;
    assert(rise * (10 * sample_rate) == 10 * (rise * sample_rate) && fall * (1500 * sample_rate)
        == 1500 * (fall * sample_rate)) by (nonlinear_arith);
    assert(rise > 0) by (nonlinear_arith)
        requires
            rise * sample_rate > 0,
            sample_rate > 0,
    ;
    assert(fall > 0) by (nonlinear_arith)
        requires
            fall * sample_rate > 0,
            sample_rate > 0,
    ;
    assert(80 * (up * rise) > rise * sample_rate) by (nonlinear_arith)
        requires
            80 * up > sample_rate,
            rise > 0,
    ;
    assert(8 * (down * fall) >= 15 * (fall * sample_rate)) by (nonlinear_arith)
        requires
            8 * down >= 15 * sample_rate,
            fall > 0,
    ;
    law_note_takes_attack_and_decay(voice, moves, rise, fall, up, down);
}

/// A sample never changes which note a voice plays, nor who asked for it.
pub proof fn law_sample_keeps_the_note(voice: Voice, moved: Single, next_phase: Single)
    ensures
        voice.after_sample(moved, next_phase).frequency == voice.frequency,
        voice.after_sample(moved, next_phase).id == voice.id,
{
}

/// A note rings at its own pitch to its end: from the start of a note, however many samples
/// go by, with or without a release between them, the voice has the pitch that the note was
/// started at, and belongs to the one who asked for it.
pub proof fn law_note_keeps_its_pitch(
    voice: Voice,
    id: VoiceId,
    frequency: Pitch,
    held: Seq<(Single, Single)>,
    then: Seq<(Single, Single)>,
)
    ensures
        ({
            let before = after_samples(voice.started(id, frequency), held);
            let ringing = after_samples(before, then);
            let released = after_samples(before.released(), then);
            &&& before.frequency == frequency && before.id == id
            &&& ringing.frequency == frequency && ringing.id == id
            &&& released.frequency == frequency && released.id == id
        }),
{
    let before = after_samples(voice.started(id, frequency), held);
    lemma_samples_keep_the_note(voice.started(id, frequency), held);
    lemma_samples_keep_the_note(before, then);
    lemma_samples_keep_the_note(before.released(), then);
}

proof fn lemma_samples_keep_the_note(voice: Voice, moves: Seq<(Single, Single)>)
    ensures
        after_samples(voice, moves).frequency == voice.frequency,
        after_samples(voice, moves).id == voice.id,
    decreases moves.len(),
{
    if moves.len() > 0 {
        lemma_samples_keep_the_note(voice, moves.drop_last());
        law_sample_keeps_the_note(
            after_samples(voice, moves.drop_last()),
            moves.last().0,
            moves.last().1,
        );
    }
}

/// A note starts without a jump, whoever asked for it: the level and the phase of the voice
/// are exactly what they were, and the voice rises with the new note at its pitch.
pub proof fn law_note_starts_without_a_jump(voice: Voice, id: VoiceId, frequency: Pitch)
    ensures
        voice.started(id, frequency).env_level == voice.env_level,
        voice.started(id, frequency).phase == voice.phase,
        voice.started(id, frequency).id == id,
        voice.started(id, frequency).frequency == frequency,
        voice.started(id, frequency).motion() is Rise,
{
}

/// A note is let go without a jump: the voice falls from the level at which it is, and its
/// note and phase are exactly what they were.
pub proof fn law_note_ends_without_a_jump(voice: Voice)
    ensures
        voice.released().env_level == voice.env_level,
        voice.released().phase == voice.phase,
        voice.released().id == voice.id,
        voice.released().frequency == voice.frequency,
        voice.released().motion() is Fall,
{
}

/// A voice that sounds takes the phase that comes next, and the level that its motion leads
/// to but for the sample in which it turns; the sample has the phase from before and the
/// level from after. An idle voice has no sample and keeps still.
pub proof fn law_sample_goes_where_the_motion_leads(
    voice: Voice,
    moved: Single,
    next_phase: Single,
    waveform: Waveform,
)
    ensures
        ({
            let next = voice.after_sample(moved, next_phase);
            match voice.tone(moved, waveform) {
                None => voice.motion() is Still && next == voice,
                Some(tone) => {
                    &&& !(voice.motion() is Still)
                    &&& next.phase == next_phase
                    &&& next.state == voice.state ==> next.env_level == moved
                    &&& tone.phase == voice.phase
                    &&& tone.level == next.env_level
                },
            }
        }),
{
}

/// The timbre alone shapes a sample, whatever the note and its level: the sine and the
/// sawtooth are one shape at every phase; the square is three tenths of full scale before
/// the middle of the turn, and as far on the other side of zero from there on.
pub proof fn law_timbre_shapes_the_sample(voice: Voice, moved: Single, waveform: Waveform)
    ensures
        voice.tone(moved, waveform) matches Some(tone) ==> match waveform {
            Waveform::Sine => tone.shape == Shape::Sine,
            Waveform::Sawtooth => tone.shape == Shape::Ramp,
            Waveform::Square => {
                &&& tone.shape matches Shape::Flat(tenths)
                &&& tenths == 3 || tenths == -3
                &&& tenths > 0 <==> !voice.phase.is_nan() && 2 * voice.phase.value()
                    < Single::one().value()
            },
        },
{
    lemma_constants();
}

/// The whole way takes a note ten milliseconds up and one and a half seconds down, and the
/// metronome two and fifty; only a voice in its attack rises, and only one in its decay
/// falls. Pitch, phase and level make no difference.
pub proof fn law_times_of_the_envelope(voice: Voice)
    ensures
        match voice.motion() {
            Motion::Still => voice.state == EnvState::Idle,
            Motion::Rise { millis } => {
                &&& voice.state == EnvState::Attack
                &&& millis == (if voice.id is Metronome {
                    2int
                } else {
                    10int
                })
            },
            Motion::Fall { millis } => {
                &&& voice.state == EnvState::Decay
                &&& millis == (if voice.id is Metronome {
                    50int
                } else {
                    1500int
                })
            },
        },
{
}

} // verus!
