//! The pool of voices, and which of them a note gets.

use crate::single::{law_order_total, Single};
use crate::voice::{
    law_level_stays_in_range, law_voice_stays_valid, EnvState, Pitch, Tone, Voice, VoiceId, Waveform,
};
use vstd::prelude::*;

verus! {

/// The number of voices.
pub const MAX_VOICES: usize = 12;

/// Voice `i` is the first idle one.
pub open spec fn is_first_idle(voices: Seq<Voice>, i: int) -> bool {
    &&& 0 <= i < voices.len()
    &&& voices[i].state == EnvState::Idle
    &&& forall|j: int| 0 <= j < i ==> (#[trigger] voices[j]).state != EnvState::Idle
}

/// Voice `i` is the first of those that no other is quieter than.
pub open spec fn is_quietest(voices: Seq<Voice>, i: int) -> bool {
    &&& 0 <= i < voices.len()
    &&& forall|j: int|
        0 <= j < voices.len() ==> voices[i].env_level.le((#[trigger] voices[j]).env_level)
    &&& forall|j: int| 0 <= j < i ==> voices[i].env_level.lt((#[trigger] voices[j]).env_level)
}

/// Whether some voice is idle.
pub open spec fn has_idle(voices: Seq<Voice>) -> bool {
    exists|i: int| 0 <= i < voices.len() && (#[trigger] voices[i]).state == EnvState::Idle
}

/// Whether every level is a number, so that levels can be compared.
pub open spec fn levels_comparable(voices: Seq<Voice>) -> bool {
    forall|i: int| 0 <= i < voices.len() ==> !(#[trigger] voices[i]).env_level.is_nan()
}

/// Voice `i` is the one that a new note gets: the first idle one, or, where all are
/// sounding, the quietest.
pub open spec fn is_target(voices: Seq<Voice>, i: int) -> bool {
    if has_idle(voices) {
        is_first_idle(voices, i)
    } else {
        is_quietest(voices, i)
    }
}

/// Voice `i` is still rising with a note of `id`.
pub open spec fn is_held(voices: Seq<Voice>, id: VoiceId, i: int) -> bool {
    0 <= i < voices.len() && voices[i].id == id && voices[i].state == EnvState::Attack
}

/// Voice `i` is the first that is still rising with a note of `id`.
pub open spec fn is_first_held(voices: Seq<Voice>, id: VoiceId, i: int) -> bool {
    is_held(voices, id, i) && forall|j: int| 0 <= j < i ==> !#[trigger] is_held(voices, id, j)
}

/// The number of voices that sound.
pub open spec fn sounding(voices: Seq<Voice>) -> nat
    decreases voices.len(),
{
    if voices.len() == 0 {
        0
    } else {
        sounding(voices.drop_last()) + if voices.last().state == EnvState::Idle {
            0nat
        } else {
            1nat
        }
    }
}

/// The voices of the synthesizer.
#[derive(Debug)]
pub struct VoicePool {
    voices: Vec<Voice>,
}

impl View for VoicePool {
    type V = Seq<Voice>;

    closed spec fn view(&self) -> Seq<Voice> {
        self.voices@
    }
}

impl VoicePool {
    /// The pool has its full number of voices.
    pub open spec fn wf(&self) -> bool {
        self@.len() == MAX_VOICES
    }

    /// A pool of silent voices.
    pub fn new() -> (r: VoicePool)
        ensures
            r.wf(),
            r@ == Seq::new(MAX_VOICES as nat, |i: int| Voice::new()),
    {
        let mut voices: Vec<Voice> = Vec::new();
        while voices.len() < MAX_VOICES
            invariant
                voices.len() <= MAX_VOICES,
                forall|i: int| 0 <= i < voices.len() ==> voices[i] == Voice::new(),
            decreases MAX_VOICES - voices.len(),
        {
            voices.push(Voice::new());
        }
        VoicePool { voices }
    }

    /// The voice with number `i`.
    pub fn voice(&self, i: usize) -> (r: Voice)
        requires
            i < self@.len(),
        ensures
            r == self@[i as int],
    {
        self.voices[i]
    }

    /// Whether a note can be given a voice: some voice is idle, or all levels can be
    /// compared.
    pub fn has_target(&self) -> (r: bool)
        ensures
            r == (has_idle(self@) || levels_comparable(self@)),
    {
        match self.first_idle() {
            Some(_) => true,
            None => {
                let mut i: usize = 0;
                while i < self.voices.len()
                    invariant
                        i <= self.voices.len(),
                        forall|j: int| 0 <= j < i ==> !(#[trigger] self@[j]).env_level.is_nan(),
                        !has_idle(self@),
                    decreases self.voices.len() - i,
                {
                    if self.voices[i].env_level.not_a_number() {
                        assert(self@[i as int].env_level.is_nan());
                        return false;
                    }
                    i += 1;
                }
                true
            },
        }
    }

    /// The first idle voice, if there is one.
    fn first_idle(&self) -> (r: Option<usize>)
        ensures
            match r {
                Some(i) => is_first_idle(self@, i as int) && has_idle(self@),
                None => !has_idle(self@),
            },
    {
        let mut i: usize = 0;
        while i < self.voices.len()
            invariant
                i <= self.voices.len(),
                forall|j: int| 0 <= j < i ==> (#[trigger] self@[j]).state != EnvState::Idle,
            decreases self.voices.len() - i,
        {
            if self.voices[i].state == EnvState::Idle {
                assert(self@[i as int].state == EnvState::Idle);
                return Some(i);
            }
            i += 1;
        }
        None
    }

    /// The quietest voice, and the first of several that are equally quiet.
    fn quietest(&self) -> (r: usize)
        requires
            self@.len() > 0,
            levels_comparable(self@),
        ensures
            is_quietest(self@, r as int),
    {
        let mut best: usize = 0;
        let mut i: usize = 1;
        while i < self.voices.len()
            invariant
                best < i <= self.voices.len(),
                levels_comparable(self@),
                forall|j: int|
                    0 <= j < i ==> self@[best as int].env_level.le((#[trigger] self@[j]).env_level),
                forall|j: int|
                    0 <= j < best ==> self@[best as int].env_level.lt(
                        (#[trigger] self@[j]).env_level,
                    ),
            decreases self.voices.len() - i,
        {
            proof {
                assert(!self@[i as int].env_level.is_nan() && !self@[best as int].env_level.is_nan());
                law_order_total(self@[i as int].env_level, self@[best as int].env_level);
            }
            if self.voices[i].env_level.below(self.voices[best].env_level) {
                best = i;
            }
            i += 1;
        }
        best
    }

    /// Starts a note on the first idle voice or, where all are sounding, on the
    /// quietest one, and returns which voice that is. No other voice changes.
    pub fn note_on(&mut self, id: VoiceId, frequency: Pitch) -> (r: usize)
        requires
            old(self).wf(),
            has_idle(old(self)@) || levels_comparable(old(self)@),
        ensures
            is_target(old(self)@, r as int),
            final(self)@ == old(self)@.update(
                r as int,
                old(self)@[r as int].started(id, frequency),
            ),
            final(self).wf(),
    {
        let target: usize = match self.first_idle() {
            Some(i) => i,
            None => self.quietest(),
        };
        let voice: Voice = self.voices[target];
        self.voices[target] = Voice { id, frequency, state: EnvState::Attack, ..voice };
        target
    }

    /// Lets the note of `id` go: the first voice that is still rising with it starts
    /// to fall. Returns which voice that is, if there is one.
    pub fn note_off(&mut self, id: VoiceId) -> (r: Option<usize>)
        ensures
            match r {
                Some(i) => {
                    &&& is_first_held(old(self)@, id, i as int)
                    &&& final(self)@ == old(self)@.update(i as int, old(self)@[i as int].released())
                },
                None => {
                    &&& forall|i: int| !is_held(old(self)@, id, i)
                    &&& final(self)@ == old(self)@
                },
            },
    {
        let mut i: usize = 0;
        while i < self.voices.len()
            invariant
                i <= self.voices.len(),
                self@ == old(self)@,
                forall|j: int| 0 <= j < i ==> !#[trigger] is_held(self@, id, j),
            decreases self.voices.len() - i,
        {
            let voice: Voice = self.voices[i];
            if voice.id == id && voice.state == EnvState::Attack {
                self.voices[i] = Voice { state: EnvState::Decay, ..voice };
                return Some(i);
            }
            i += 1;
        }
        None
    }

    /// Takes voice `i` over one sample, as [`Voice::next_sample`] does. No other voice
    /// changes.
    pub fn next_sample(
        &mut self,
        i: usize,
        moved: Single,
        next_phase: Single,
        waveform: Waveform,
    ) -> (r: Option<Tone>)
        requires
            i < old(self)@.len(),
        ensures
            final(self)@ == old(self)@.update(
                i as int,
                old(self)@[i as int].after_sample(moved, next_phase),
            ),
            r == old(self)@[i as int].tone(moved, waveform),
    {
        let mut voice: Voice = self.voices[i];
        let tone: Option<Tone> = voice.next_sample(moved, next_phase, waveform);
        self.voices[i] = voice;
        tone
    }
}

/// There is never a choice which voice a note gets.
pub proof fn law_target_unique(voices: Seq<Voice>, i: int, j: int)
    requires
        is_target(voices, i),
        is_target(voices, j),
    ensures
        i == j,
{
}

proof fn lemma_sounding_update(voices: Seq<Voice>, i: int, voice: Voice)
    requires
        0 <= i < voices.len(),
        voice.state != EnvState::Idle,
    ensures
        sounding(voices.update(i, voice)) == sounding(voices) + if voices[i].state
            == EnvState::Idle {
            1int
        } else {
            0int
        },
    decreases voices.len(),
{
    let updated = voices.update(i, voice);
    if i == voices.len() - 1 {
        assert(updated.drop_last() =~= voices.drop_last());
    } else {
        assert(updated.drop_last() =~= voices.drop_last().update(i, voice));
        lemma_sounding_update(voices.drop_last(), i, voice);
    }
}

proof fn lemma_sounding_all(voices: Seq<Voice>)
    ensures
        sounding(voices) <= voices.len(),
        sounding(voices) == voices.len() <==> !has_idle(voices),
    decreases voices.len(),
{
    if voices.len() > 0 {
        let front = voices.drop_last();
        lemma_sounding_all(front);
        if has_idle(front) {
            let i = choose|i: int|
                0 <= i < front.len() && (#[trigger] front[i]).state == EnvState::Idle;
            assert(voices[i].state == EnvState::Idle);
        }
        if voices.last().state == EnvState::Idle {
            assert(voices[voices.len() - 1].state == EnvState::Idle);
        }
        if has_idle(voices) {
            let i = choose|i: int|
                0 <= i < voices.len() && (#[trigger] voices[i]).state == EnvState::Idle;
            if i < front.len() {
                assert(front[i].state == EnvState::Idle);
            }
        }
    }
}

/// A new note makes one more voice sound, until all of them do; from then on it takes
/// over a sounding voice.
pub proof fn law_note_on_uses_free_voices(
    voices: Seq<Voice>,
    target: int,
    id: VoiceId,
    frequency: Pitch,
)
    requires
        is_target(voices, target),
    ensures
        ({
            let after = voices.update(target, voices[target].started(id, frequency));
            if sounding(voices) < voices.len() {
                sounding(after) == sounding(voices) + 1
            } else {
                sounding(after) == voices.len()
            }
        }),
{
    lemma_sounding_all(voices);
    lemma_sounding_update(voices, target, voices[target].started(id, frequency));
}

/// No note is taken over while a voice is idle.
pub proof fn law_no_stealing_while_idle(voices: Seq<Voice>, target: int, i: int)
    requires
        is_target(voices, target),
        0 <= i < voices.len(),
        voices[i].state == EnvState::Idle,
    ensures
        voices[target].state == EnvState::Idle,
{
    assert(has_idle(voices));
}

/// Letting go of a note that no other voice was rising with reaches the voice that
/// the note was started on.
pub proof fn law_note_off_finds_its_note(
    voices: Seq<Voice>,
    target: int,
    id: VoiceId,
    frequency: Pitch,
    i: int,
)
    requires
        is_target(voices, target),
        forall|j: int| !is_held(voices, id, j),
    ensures
        is_first_held(voices.update(target, voices[target].started(id, frequency)), id, i)
            <==> i == target,
{
    let after = voices.update(target, voices[target].started(id, frequency));
    assert(is_held(after, id, target));
    assert forall|j: int| j != target implies !#[trigger] is_held(after, id, j) by {
        assert(!is_held(voices, id, j));
    }
}

/// Letting go never reaches a voice that is not rising: a note that has been at full
/// level rings out in its own time.
pub proof fn law_note_off_spares_decaying(voices: Seq<Voice>, id: VoiceId, i: int)
    requires
        0 <= i < voices.len(),
        voices[i].state != EnvState::Attack,
    ensures
        !is_first_held(voices, id, i),
{
}

/// Every level lies between silence and full level.
pub open spec fn levels_in_range(voices: Seq<Voice>) -> bool {
    forall|i: int| 0 <= i < voices.len() ==> (#[trigger] voices[i]).level_in_range()
}

/// Levels that are in range can be compared, so that a note always finds a voice; and
/// they stay in range when a note starts, when a note is let go, and over a sample in
/// which a rise does not lower the level and a fall does not raise it.
pub proof fn law_levels_stay_in_range(
    voices: Seq<Voice>,
    i: int,
    id: VoiceId,
    frequency: Pitch,
    moved: Single,
    next_phase: Single,
)
    requires
        levels_in_range(voices),
        0 <= i < voices.len(),
        voices[i].motion() is Rise ==> voices[i].env_level.le(moved),
        voices[i].motion() is Fall ==> moved.le(voices[i].env_level),
    ensures
        levels_comparable(voices),
        levels_in_range(voices.update(i, voices[i].started(id, frequency))),
        levels_in_range(voices.update(i, voices[i].released())),
        levels_in_range(voices.update(i, voices[i].after_sample(moved, next_phase))),
{
    law_level_stays_in_range(voices[i], moved, next_phase);
    assert forall|j: int| 0 <= j < voices.len() implies !(
    #[trigger] voices[j]).env_level.is_nan() by {
        assert(voices[j].level_in_range());
    }
}

/// Every voice is valid.
pub open spec fn all_valid(voices: Seq<Voice>) -> bool {
    forall|i: int| 0 <= i < voices.len() ==> (#[trigger] voices[i]).valid()
}

/// Voices that are valid stay so when a note starts, when a note is let go, and over a
/// sample in which a rise does not lower the level, a fall does not raise it, and the next
/// phase lies within one turn.
pub proof fn law_voices_stay_valid(
    voices: Seq<Voice>,
    i: int,
    id: VoiceId,
    frequency: Pitch,
    moved: Single,
    next_phase: Single,
)
    requires
        all_valid(voices),
        0 <= i < voices.len(),
        voices[i].motion() is Rise ==> voices[i].env_level.le(moved),
        voices[i].motion() is Fall ==> moved.le(voices[i].env_level),
        Single::zero().le(next_phase),
        next_phase.lt(Single::one()),
    ensures
        all_valid(Seq::new(MAX_VOICES as nat, |j: int| Voice::new())),
        all_valid(voices.update(i, voices[i].started(id, frequency))),
        all_valid(voices.update(i, voices[i].released())),
        all_valid(voices.update(i, voices[i].after_sample(moved, next_phase))),
{
    law_voice_stays_valid(voices[i], moved, next_phase);
}

proof fn lemma_some_first_idle(voices: Seq<Voice>)
    requires
        has_idle(voices),
    ensures
        exists|i: int| is_first_idle(voices, i),
    decreases voices.len(),
{
    let front = voices.drop_last();
    if has_idle(front) {
        lemma_some_first_idle(front);
        let i = choose|i: int| is_first_idle(front, i);
        assert forall|j: int| 0 <= j < i implies (#[trigger] voices[j]).state != EnvState::Idle by {
            assert(front[j] == voices[j]);
        }
        assert(is_first_idle(voices, i));
    } else {
        let last = voices.len() - 1;
        assert forall|j: int| 0 <= j < last implies (#[trigger] voices[j]).state
            != EnvState::Idle by {
            assert(front[j] == voices[j]);
        }
        assert(is_first_idle(voices, last));
    }
}

proof fn lemma_some_quietest(voices: Seq<Voice>)
    requires
        voices.len() > 0,
        levels_comparable(voices),
    ensures
        exists|i: int| is_quietest(voices, i),
    decreases voices.len(),
{
    let front = voices.drop_last();
    let last = voices.len() - 1;
    assert(!voices[last].env_level.is_nan());
    if front.len() == 0 {
        assert(is_quietest(voices, last));
    } else {
        assert forall|j: int| 0 <= j < front.len() implies !(
        #[trigger] front[j]).env_level.is_nan() by {
            assert(front[j] == voices[j]);
        }
        lemma_some_quietest(front);
        let i = choose|i: int| is_quietest(front, i);
        assert(!voices[i].env_level.is_nan());
        let next = if voices[last].env_level.lt(voices[i].env_level) {
            last
        } else {
            i
        };
        assert forall|j: int| 0 <= j < voices.len() implies {
            &&& voices[next].env_level.le((#[trigger] voices[j]).env_level)
            &&& j < next ==> voices[next].env_level.lt(voices[j].env_level)
        } by {
            if j < last {
                assert(front[j] == voices[j]);
                assert(front[i].env_level.le(front[j].env_level));
            }
        }
        assert(is_quietest(voices, next));
    }
}

/// A note never waits: where a voice is idle, or all levels are numbers, there is a voice
/// for it.
pub proof fn law_a_note_finds_a_voice(voices: Seq<Voice>)
    requires
        voices.len() > 0,
        (exists|i: int| 0 <= i < voices.len() && (#[trigger] voices[i]).motion() is Still) || (
        forall|i: int| 0 <= i < voices.len() ==> !(#[trigger] voices[i]).env_level.is_nan()),
    ensures
        exists|i: int| is_target(voices, i),
{
    if exists|i: int| 0 <= i < voices.len() && (#[trigger] voices[i]).motion() is Still {
        let i = choose|i: int| 0 <= i < voices.len() && (#[trigger] voices[i]).motion() is Still;
        assert(voices[i].state == EnvState::Idle);
    }
    if has_idle(voices) {
        lemma_some_first_idle(voices);
        let i = choose|i: int| is_first_idle(voices, i);
        assert(is_target(voices, i));
    } else {
        lemma_some_quietest(voices);
        let i = choose|i: int| is_quietest(voices, i);
        assert(is_target(voices, i));
    }
}

/// The voice that a note gets is idle, and every voice before it sounds; or all voices
/// sound, none has a lower level, and every voice before it has a higher one.
pub proof fn law_target_is_free_or_quietest(voices: Seq<Voice>, target: int, j: int)
    requires
        is_target(voices, target),
        0 <= j < voices.len(),
    ensures
        0 <= target < voices.len(),
        if voices[target].state == EnvState::Idle {
            j < target ==> voices[j].state != EnvState::Idle
        } else {
            &&& voices[j].state != EnvState::Idle
            &&& voices[target].env_level.value() <= voices[j].env_level.value()
            &&& j < target ==> voices[target].env_level.value() < voices[j].env_level.value()
        },
{
    if voices[j].state == EnvState::Idle {
        assert(has_idle(voices));
    }
    if has_idle(voices) {
        assert(is_first_idle(voices, target));
    } else {
        assert(voices[target].env_level.le(voices[j].env_level));
    }
}

/// A note that starts takes one voice, which rises with it at its pitch from the level and
/// the phase that it had; every other voice is as it was.
pub proof fn law_note_on_takes_one_voice(
    voices: Seq<Voice>,
    target: int,
    id: VoiceId,
    frequency: Pitch,
    j: int,
)
    requires
        is_target(voices, target),
        0 <= j < voices.len(),
    ensures
        ({
            let after = voices.update(target, voices[target].started(id, frequency));
            &&& after.len() == voices.len()
            &&& after[j].env_level == voices[j].env_level
            &&& after[j].phase == voices[j].phase
            &&& j != target ==> after[j] == voices[j]
            &&& j == target ==> after[j].id == id && after[j].frequency == frequency
                && after[j].state == EnvState::Attack
        }),
{
}

/// Letting go reaches a voice exactly where one rises with a note of that id; it is the
/// first such voice, and falls from the level and the phase that it had, at its pitch.
pub proof fn law_note_off_reaches_the_first_rising(voices: Seq<Voice>, id: VoiceId, j: int)
    requires
        0 <= j < voices.len(),
    ensures
        is_held(voices, id, j) <==> voices[j].id == id && voices[j].motion() is Rise,
        is_held(voices, id, j) ==> exists|i: int| is_first_held(voices, id, i) && i <= j,
        is_first_held(voices, id, j) ==> ({
            let after = voices.update(j, voices[j].released());
            &&& is_held(voices, id, j)
            &&& forall|i: int|
                0 <= i < j ==> !((#[trigger] voices[i]).id == id && voices[i].state
                    == EnvState::Attack)
            &&& after[j].state == EnvState::Decay
            &&& after[j].env_level == voices[j].env_level
            &&& after[j].phase == voices[j].phase
            &&& after[j].id == id
            &&& after[j].frequency == voices[j].frequency
        }),
    decreases j,
{
    if is_held(voices, id, j) {
        if exists|k: int| 0 <= k < j && #[trigger] is_held(voices, id, k) {
            let k = choose|k: int| 0 <= k < j && #[trigger] is_held(voices, id, k);
            law_note_off_reaches_the_first_rising(voices, id, k);
        } else {
            assert(is_first_held(voices, id, j));
        }
    }
    if is_first_held(voices, id, j) {
        assert forall|i: int| 0 <= i < j implies !((#[trigger] voices[i]).id == id
            && voices[i].state == EnvState::Attack) by {
            assert(!is_held(voices, id, i));
        }
    }
}

} // verus!
