//! The audio side: the voices and switches that the commands work on, the recording
//! that runs along, and what the screen gets to see of it.

use crate::command::AudioCommand;
use crate::pool::{
    has_idle, is_first_held, is_held, is_target, law_note_off_reaches_the_first_rising,
    law_target_is_free_or_quietest, levels_comparable, VoicePool, MAX_VOICES,
};
use crate::recorder::{after_pushes, carries, RecordMsg, Recorder, CHUNK_SIZE};
use crate::single::Single;
use crate::ui::UiState;
use crate::voice::{EnvState, Pitch, Tone, Voice, VoiceId, Waveform};
use vstd::prelude::*;

verus! {

/// What a running recording does with a sample: it joins those that were waiting, and
/// where it fills the chunk, the chunk goes out in a message and nothing waits.
pub open spec fn captured(
    waiting: Seq<Single>,
    sample: Single,
    waiting_after: Seq<Single>,
    msg: Option<RecordMsg>,
) -> bool {
    if waiting.len() + 1 == CHUNK_SIZE {
        &&& waiting_after == Seq::<Single>::empty()
        &&& msg matches Some(RecordMsg::Audio(chunk)) && chunk@ == waiting.push(sample)
    } else {
        waiting_after == waiting.push(sample) && msg is None
    }
}

/// The state of the audio side.
#[derive(Debug)]
pub struct Engine {
    pub sample_rate: u32,
    pub voices: VoicePool,
    pub active_waveform: Waveform,
    pub filter_on: bool,
    pub recording_on: bool,
    pub recorder: Recorder,
}

impl Engine {
    /// The voices are complete, and the recorder is in order.
    pub open spec fn wf(&self) -> bool {
        self.voices.wf() && self.recorder.wf()
    }

    /// `after` is the engine, and `msg` the message, that a command leads to. A note gets
    /// the voice that is due and changes nothing else; a release reaches the first voice
    /// that is still rising with the note; the other commands work one switch each. A
    /// recording starts with nothing waiting, and starting and stopping it sends a message.
    pub open spec fn applied(
        self,
        command: AudioCommand,
        after: Engine,
        msg: Option<RecordMsg>,
    ) -> bool {
        match command {
            AudioCommand::NoteOn(id, frequency) => {
                &&& exists|i: int|
                    {
                        &&& #[trigger] is_target(self.voices@, i)
                        &&& after.voices@ == self.voices@.update(
                            i,
                            self.voices@[i].started(id, frequency),
                        )
                    }
                &&& after == (Engine { voices: after.voices, ..self })
                &&& msg is None
            },
            AudioCommand::NoteOff(id) => {
                &&& {
                    ||| exists|i: int|
                        {
                            &&& #[trigger] is_first_held(self.voices@, id, i)
                            &&& after.voices@ == self.voices@.update(
                                i,
                                self.voices@[i].released(),
                            )
                        }
                    ||| {
                        &&& forall|i: int| !#[trigger] is_held(self.voices@, id, i)
                        &&& after.voices@ == self.voices@
                    }
                }
                &&& after == (Engine { voices: after.voices, ..self })
                &&& msg is None
            },
            AudioCommand::SetWaveform(waveform) => {
                &&& after == (Engine { active_waveform: waveform, ..self })
                &&& msg is None
            },
            AudioCommand::ToggleFilter => {
                &&& after == (Engine { filter_on: !self.filter_on, ..self })
                &&& msg is None
            },
            AudioCommand::ToggleRecording => {
                &&& after == (Engine {
                    recording_on: !self.recording_on,
                    recorder: after.recorder,
                    ..self
                })
                &&& if self.recording_on {
                    msg == Some(RecordMsg::Stop) && after.recorder == self.recorder
                } else {
                    msg == Some(RecordMsg::Start(self.sample_rate)) && after.recorder@
                        == Seq::<Single>::empty()
                }
            },
        }
    }

    /// A silent engine with a sine timbre, unfiltered and not recording.
    pub fn new(sample_rate: u32) -> (r: Engine)
        ensures
            r.wf(),
            r.voices@ == Seq::new(MAX_VOICES as nat, |i: int| Voice::new()),
            r.sample_rate == sample_rate,
            r.active_waveform == Waveform::Sine,
            !r.filter_on,
            !r.recording_on,
            r.recorder@ == Seq::<Single>::empty(),
    {
        Engine {
            sample_rate,
            voices: VoicePool::new(),
            active_waveform: Waveform::Sine,
            filter_on: false,
            recording_on: false,
            recorder: Recorder::new(),
        }
    }

    /// Carries out a command. Where it starts or stops a recording, returns the message
    /// for the writer of the sound file; a recording starts with nothing waiting.
    pub fn apply(&mut self, command: AudioCommand) -> (r: Option<RecordMsg>)
        requires
            old(self).wf(),
            command is NoteOn ==> has_idle(old(self).voices@) || levels_comparable(
                old(self).voices@,
            ),
        ensures
            final(self).wf(),
            old(self).applied(command, *final(self), r),
    {
        match command {
            AudioCommand::NoteOn(id, frequency) => {
                let _target: usize = self.voices.note_on(id, frequency);
                None
            },
            AudioCommand::NoteOff(id) => {
                let _released: Option<usize> = self.voices.note_off(id);
                None
            },
            AudioCommand::SetWaveform(waveform) => {
                self.active_waveform = waveform;
                None
            },
            AudioCommand::ToggleFilter => {
                self.filter_on = !self.filter_on;
                None
            },
            AudioCommand::ToggleRecording => {
                if self.recording_on {
                    self.recording_on = false;
                    Some(RecordMsg::Stop)
                } else {
                    self.recorder.clear();
                    self.recording_on = true;
                    Some(RecordMsg::Start(self.sample_rate))
                }
            },
        }
    }

    /// Takes voice `i` over one sample in the current timbre, as [`Voice::next_sample`]
    /// does. Nothing else changes.
    pub fn next_sample(&mut self, i: usize, moved: Single, next_phase: Single) -> (r: Option<Tone>)
        requires
            old(self).wf(),
            i < MAX_VOICES,
        ensures
            final(self).wf(),
            *final(self) == (Engine { voices: final(self).voices, ..*old(self) }),
            final(self).voices@ == old(self).voices@.update(
                i as int,
                old(self).voices@[i as int].after_sample(moved, next_phase),
            ),
            r == old(self).voices@[i as int].tone(moved, old(self).active_waveform),
    {
        self.voices.next_sample(i, moved, next_phase, self.active_waveform)
    }

    /// Takes in an output sample for the recording, if one runs, and returns the message
    /// with the chunk that it fills, if it fills one.
    pub fn capture(&mut self, sample: Single) -> (r: Option<RecordMsg>)
        requires
            old(self).wf(),
        ensures
            final(self).wf(),
            *final(self) == (Engine { recorder: final(self).recorder, ..*old(self) }),
            old(self).recorder@.len() < CHUNK_SIZE,
            final(self).recorder@.len() < CHUNK_SIZE,
            if old(self).recording_on {
                captured(old(self).recorder@, sample, final(self).recorder@, r)
            } else {
                r is None && final(self).recorder == old(self).recorder
            },
    {
        if self.recording_on {
            match self.recorder.push(sample) {
                Some(chunk) => Some(RecordMsg::Audio(chunk)),
                None => None,
            }
        } else {
            None
        }
    }

    /// Shows the screen the levels of the voices and the switches of the audio side.
    pub fn publish(&self, ui: &mut UiState)
        requires
            self.wf(),
        ensures
            *final(ui) == (UiState {
                voice_levels: final(ui).voice_levels,
                is_filter_on: self.filter_on,
                is_recording: self.recording_on,
                ..*old(ui)
            }),
            forall|i: int|
                0 <= i < MAX_VOICES ==> #[trigger] final(ui).voice_levels@[i]
                    == self.voices@[i].env_level,
    {
        let mut i: usize = 0;
        while i < MAX_VOICES
            invariant
                i <= MAX_VOICES,
                self.wf(),
                *ui == (UiState { voice_levels: ui.voice_levels, ..*old(ui) }),
                forall|j: int|
                    0 <= j < i ==> #[trigger] ui.voice_levels@[j] == self.voices@[j].env_level,
            decreases MAX_VOICES - i,
        {
            ui.voice_levels[i] = self.voices.voice(i).env_level;
            i += 1;
        }
        ui.is_filter_on = self.filter_on;
        ui.is_recording = self.recording_on;
    }
}

/// Sample by sample, the messages of a running recording carry the chunks of what it has
/// taken in since it started, and the rest is waiting.
pub proof fn law_capture_feeds_recording(
    samples: Seq<Single>,
    msgs: Seq<RecordMsg>,
    sample: Single,
    waiting_after: Seq<Single>,
    msg: Option<RecordMsg>,
)
    requires
        carries(msgs, samples),
        captured(after_pushes(samples).1, sample, waiting_after, msg),
    ensures
        waiting_after == after_pushes(samples.push(sample)).1,
        carries(
            match msg {
                Some(m) => msgs.push(m),
                None => msgs,
            },
            samples.push(sample),
        ),
{
    assert(samples.push(sample).drop_last() =~= samples);
    if let Some(m) = msg {
        assert(msgs.push(m).drop_last() =~= msgs);
    }
}

/// Working the filter twice changes nothing.
pub proof fn law_filter_undoes(
    start: Engine,
    once: Engine,
    twice: Engine,
    first: Option<RecordMsg>,
    second: Option<RecordMsg>,
)
    requires
        start.applied(AudioCommand::ToggleFilter, once, first),
        once.applied(AudioCommand::ToggleFilter, twice, second),
    ensures
        once.filter_on != start.filter_on,
        twice == start,
{
}

/// Working the recording switch twice, from off, starts a recording at the engine's
/// sample rate and stops it again, and the switch is back where it was. At its start the
/// recording has taken in nothing and sent nothing.
pub proof fn law_recording_starts_and_stops(
    start: Engine,
    once: Engine,
    twice: Engine,
    first: Option<RecordMsg>,
    second: Option<RecordMsg>,
)
    requires
        !start.recording_on,
        start.applied(AudioCommand::ToggleRecording, once, first),
        once.applied(AudioCommand::ToggleRecording, twice, second),
    ensures
        once.recording_on,
        first == Some(RecordMsg::Start(start.sample_rate)),
        once.recorder@ == after_pushes(Seq::empty()).1,
        carries(Seq::empty(), Seq::empty()),
        second == Some(RecordMsg::Stop),
        twice == (Engine { recorder: twice.recorder, ..start }),
{
}

/// A note that is started sounds: some voice rises with it, at its pitch.
pub proof fn law_started_note_sounds(
    before: Engine,
    id: VoiceId,
    frequency: Pitch,
    after: Engine,
    msg: Option<RecordMsg>,
)
    requires
        before.applied(AudioCommand::NoteOn(id, frequency), after, msg),
    ensures
        exists|i: int| #[trigger]
            is_held(after.voices@, id, i) && after.voices@[i].frequency == frequency,
{
    let i = choose|i: int|
        {
            &&& #[trigger] is_target(before.voices@, i)
            &&& after.voices@ == before.voices@.update(
                i,
                before.voices@[i].started(id, frequency),
            )
        };
    assert(is_held(after.voices@, id, i));
}

/// Commands that are not about notes leave every voice as it is, and those about notes
/// leave every switch as it is.
pub proof fn law_notes_and_switches_apart(
    before: Engine,
    command: AudioCommand,
    after: Engine,
    msg: Option<RecordMsg>,
)
    requires
        before.applied(command, after, msg),
    ensures
        if command is NoteOn || command is NoteOff {
            after == (Engine { voices: after.voices, ..before }) && msg is None
        } else {
            after.voices == before.voices
        },
{
}

/// A note that starts takes one voice: an idle one with none before it, or, where all
/// sound, the first with the lowest level. It rises with the note at its pitch, from the
/// level and the phase that it had. No other voice changes, nor does any switch, whatever
/// the switches are.
pub proof fn law_note_on_takes_the_voice_that_is_due(
    before: Engine,
    id: VoiceId,
    frequency: Pitch,
    after: Engine,
    msg: Option<RecordMsg>,
)
    requires
        before.applied(AudioCommand::NoteOn(id, frequency), after, msg),
    ensures
        msg is None,
        after == (Engine { voices: after.voices, ..before }),
        after.voices@.len() == before.voices@.len(),
        exists|i: int|
            {
                let (was, is) = (#[trigger] before.voices@[i], after.voices@[i]);
                &&& 0 <= i < before.voices@.len()
                &&& is.id == id
                &&& is.frequency == frequency
                &&& is.state == EnvState::Attack
                &&& is.env_level == was.env_level
                &&& is.phase == was.phase
                &&& forall|j: int|
                    0 <= j < before.voices@.len() && j != i ==> #[trigger] after.voices@[j]
                        == before.voices@[j]
                &&& forall|j: int|
                    0 <= j < before.voices@.len() ==> due_before(
                        was,
                        i,
                        #[trigger] before.voices@[j],
                        j,
                    )
            },
{
    let i = choose|i: int|
        {
            &&& #[trigger] is_target(before.voices@, i)
            &&& after.voices@ == before.voices@.update(
                i,
                before.voices@[i].started(id, frequency),
            )
        };
    let was = before.voices@[i];
    assert forall|j: int| 0 <= j < before.voices@.len() implies due_before(
        was,
        i,
        #[trigger] before.voices@[j],
        j,
    ) by {
        law_target_is_free_or_quietest(before.voices@, i, j);
    }
}

/// A note rather takes the voice `a` at place `i` than the voice `b` at place `j`: an idle
/// voice comes before one that sounds, and a quiet one before a loud one; else the one at
/// the lower place comes first.
pub open spec fn due_before(a: Voice, i: int, b: Voice, j: int) -> bool {
    if a.state == EnvState::Idle {
        b.state == EnvState::Idle ==> i <= j
    } else {
        &&& b.state != EnvState::Idle
        &&& a.env_level.value() <= b.env_level.value()
        &&& a.env_level.value() == b.env_level.value() ==> i <= j
    }
}

/// Letting go changes one voice at the most: the first that rises with a note of that id
/// falls from then on, at the level, the phase and the pitch that it had. Where none does,
/// nothing changes at all.
pub proof fn law_note_off_lets_one_voice_fall(
    before: Engine,
    id: VoiceId,
    after: Engine,
    msg: Option<RecordMsg>,
    j: int,
)
    requires
        before.applied(AudioCommand::NoteOff(id), after, msg),
        0 <= j < before.voices@.len(),
    ensures
        msg is None,
        after == (Engine { voices: after.voices, ..before }),
        after.voices@.len() == before.voices@.len(),
        ({
            let (was, is) = (before.voices@[j], after.voices@[j]);
            let first = was.id == id && was.state == EnvState::Attack && forall|k: int|
                0 <= k < j ==> !((#[trigger] before.voices@[k]).id == id && before.voices@[k].state
                    == EnvState::Attack);
            &&& is.id == was.id
            &&& is.frequency == was.frequency
            &&& is.env_level == was.env_level
            &&& is.phase == was.phase
            &&& is.state == if first {
                EnvState::Decay
            } else {
                was.state
            }
        }),
{
    let voices = before.voices@;
    if exists|i: int| #[trigger] is_first_held(voices, id, i) {
        let i = choose|i: int|
            {
                &&& #[trigger] is_first_held(voices, id, i)
                &&& after.voices@ == voices.update(i, voices[i].released())
            };
        law_note_off_reaches_the_first_rising(voices, id, i);
        if i < j {
            assert(voices[i].id == id && voices[i].state == EnvState::Attack);
        }
        law_note_off_reaches_the_first_rising(voices, id, j);
    } else {
        assert(!is_held(voices, id, j)) by {
            law_note_off_reaches_the_first_rising(voices, id, j);
        }
    }
}

/// Each switch command does its own work and no other: a timbre becomes the one that was
/// asked for; the filter goes over; and the recording goes over, with a start at the
/// engine's own sample rate and nothing waiting, or with a stop and what waits left alone.
pub proof fn law_switch_commands_do_their_own_work(
    before: Engine,
    command: AudioCommand,
    after: Engine,
    msg: Option<RecordMsg>,
)
    requires
        before.applied(command, after, msg),
        !(command is NoteOn),
        !(command is NoteOff),
    ensures
        after.voices == before.voices,
        after.sample_rate == before.sample_rate,
        after.active_waveform == (if command is SetWaveform {
            command->SetWaveform_0
        } else {
            before.active_waveform
        }),
        after.filter_on == (before.filter_on != (command is ToggleFilter)),
        after.recording_on == (before.recording_on != (command is ToggleRecording)),
        match msg {
            None => !(command is ToggleRecording) && after.recorder == before.recorder,
            Some(RecordMsg::Start(sample_rate)) => {
                &&& command is ToggleRecording && after.recording_on
                &&& sample_rate == before.sample_rate
                &&& after.recorder@.len() == 0
            },
            Some(RecordMsg::Stop) => command is ToggleRecording && before.recording_on
                && after.recorder == before.recorder,
            Some(RecordMsg::Audio(_)) => false,
        },
{
}

/// A sample that is captured is never changed or dropped: with what was waiting before it,
/// it is what waits after it, or, where that makes 1024, what goes out in the message.
pub proof fn law_capture_keeps_the_sample(
    waiting: Seq<Single>,
    sample: Single,
    waiting_after: Seq<Single>,
    msg: Option<RecordMsg>,
)
    requires
        captured(waiting, sample, waiting_after, msg),
    ensures
        match msg {
            None => waiting.len() != 1023 && waiting_after == waiting.push(sample),
            Some(RecordMsg::Audio(chunk)) => waiting.len() == 1023 && waiting_after.len() == 0
                && chunk@ == waiting.push(sample),
            Some(_) => false,
        },
{
}

} // verus!
