//! What the screen shows: the state that the audio side and the keyboard keep up to
//! date, and the texts made from it.

use crate::controls::{Controls, Key, Reaction, START_BPM};
use crate::decimal::{append_decimal, decimal, law_decimal_reads_back, number};
use crate::delay::{after_stores, law_line_holds_latest};
use crate::pool::MAX_VOICES;
use crate::single::Single;
use vstd::prelude::*;
use vstd::string::StringExecFns;

verus! {

/// The number of output samples that the screen shows.
pub const WAVEFORM_SIZE: usize = 256;

/// The state of the screen. The samples lie in a ring, with `wave_idx` at the oldest.
#[derive(Clone, Copy, Debug)]
pub struct UiState {
    pub voice_levels: [Single; MAX_VOICES],
    pub waveform: [Single; WAVEFORM_SIZE],
    pub wave_idx: usize,
    pub is_recording: bool,
    pub is_filter_on: bool,
    pub is_tanpura_on: bool,
    pub is_bpm_on: bool,
    pub bpm: u32,
}

impl Default for UiState {
    /// A silent screen with all switches off, at the starting tempo.
    fn default() -> (r: UiState)
        ensures
            r.wf(),
            forall|i: int| 0 <= i < MAX_VOICES ==> r.voice_levels@[i] == Single::zero(),
            forall|i: int| 0 <= i < WAVEFORM_SIZE ==> r.waveform@[i] == Single::zero(),
            r.wave_idx == 0,
            !r.is_recording,
            !r.is_filter_on,
            !r.is_tanpura_on,
            !r.is_bpm_on,
            r.bpm == START_BPM,
    {
        UiState {
            voice_levels: [Single::zero();MAX_VOICES],
            waveform: [Single::zero();WAVEFORM_SIZE],
            wave_idx: 0,
            is_recording: false,
            is_filter_on: false,
            is_tanpura_on: false,
            is_bpm_on: false,
            bpm: START_BPM,
        }
    }
}

/// How the screen shows a switch.
pub open spec fn switch_text(on: bool) -> Seq<char> {
    if on {
        "ON"@
    } else {
        "OFF"@
    }
}

/// How the screen shows whether a recording runs.
pub open spec fn recording_text(on: bool) -> Seq<char> {
    if on {
        "REC"@
    } else {
        "OFF"@
    }
}

impl UiState {
    /// The ring position lies in the ring.
    pub open spec fn wf(&self) -> bool {
        self.wave_idx < WAVEFORM_SIZE
    }

    /// The samples that the screen shows, oldest first.
    pub open spec fn trace(&self) -> Seq<Single> {
        self.waveform@.skip(self.wave_idx as int) + self.waveform@.take(self.wave_idx as int)
    }

    /// The screen shows the switches as they are.
    pub open spec fn agrees(&self, controls: Controls) -> bool {
        &&& self.is_tanpura_on == controls.tanpura_active
        &&& self.is_bpm_on == controls.bpm_active
        &&& self.bpm == controls.current_bpm
    }

    /// The screen after a key press has switched something.
    pub open spec fn reflected(self, reaction: Reaction) -> UiState {
        match reaction {
            Reaction::Tanpura(on) => UiState { is_tanpura_on: on, ..self },
            Reaction::Metronome(on) => UiState { is_bpm_on: on, ..self },
            Reaction::Tempo(bpm) => UiState { bpm, ..self },
            _ => self,
        }
    }

    /// The status text: what each key works, and how it stands.
    pub open spec fn header_text(&self) -> Seq<char> {
        "🎛️  Bhairav Synth OS | T: Tanpura ("@ + switch_text(self.is_tanpura_on)
            + ") | V: Filter ("@ + switch_text(self.is_filter_on) + ") | R: Record ("@
            + recording_text(self.is_recording) + ") | ESC to Quit\nB: Metronome ("@
            + switch_text(self.is_bpm_on) + ") | Tempo: [ decrease, ] increase ("@ + decimal(
            self.bpm as nat,
        ) + " BPM)"@
    }

    /// Takes in an output sample in place of the oldest one.
    pub fn push_sample(&mut self, sample: Single)
        requires
            old(self).wf(),
        ensures
            final(self).wf(),
            final(self).waveform@ == old(self).waveform@.update(old(self).wave_idx as int, sample),
            final(self).wave_idx == (old(self).wave_idx + 1) % WAVEFORM_SIZE as int,
            final(self).trace() == old(self).trace().drop_first().push(sample),
            *final(self) == (UiState {
                waveform: final(self).waveform,
                wave_idx: final(self).wave_idx,
                ..*old(self)
            }),
    {
        let idx: usize = self.wave_idx;
        self.waveform[idx] = sample;
        self.wave_idx = (idx + 1) % WAVEFORM_SIZE;
        assert(self.trace() =~= old(self).trace().drop_first().push(sample));
    }

    /// Shows what a key press has switched.
    pub fn reflect(&mut self, reaction: Reaction)
        ensures
            *final(self) == old(self).reflected(reaction),
    {
        match reaction {
            Reaction::Tanpura(on) => {
                self.is_tanpura_on = on;
            },
            Reaction::Metronome(on) => {
                self.is_bpm_on = on;
            },
            Reaction::Tempo(bpm) => {
                self.bpm = bpm;
            },
            _ => {},
        }
    }

    /// The status text.
    pub fn header(&self) -> (r: String)
        ensures
            r@ == self.header_text(),
    {
        let mut text: String = String::new();
        text.append("🎛️  Bhairav Synth OS | T: Tanpura (");
        text.append(switch_str(self.is_tanpura_on));
        text.append(") | V: Filter (");
        text.append(switch_str(self.is_filter_on));
        text.append(") | R: Record (");
        text.append(
            if self.is_recording {
                "REC"
            } else {
                "OFF"
            },
        );
        text.append(") | ESC to Quit\nB: Metronome (");
        text.append(switch_str(self.is_bpm_on));
        text.append(") | Tempo: [ decrease, ] increase (");
        append_decimal(&mut text, self.bpm);
        text.append(" BPM)");
        assert(text@ =~= self.header_text());
        text
    }
}

fn switch_str(on: bool) -> (r: &'static str)
    ensures
        r@ == switch_text(on),
{
    if on {
        "ON"
    } else {
        "OFF"
    }
}

/// The captions of the voices. They are labels only: any voice may play any note.
pub open spec fn voice_captions() -> Seq<Seq<char>> {
    seq![
        "V1"@,
        "V2"@,
        "V3"@,
        "V4"@,
        "V5"@,
        "V6"@,
        "V7"@,
        "V8"@,
        "V9"@,
        "V10"@,
        "T1"@,
        "BPM"@,
    ]
}

/// The caption of a voice.
pub fn voice_caption(i: usize) -> (r: &'static str)
    requires
        i < MAX_VOICES,
    ensures
        r@ == voice_captions()[i as int],
{
    match i {
        0 => "V1",
        1 => "V2",
        2 => "V3",
        3 => "V4",
        4 => "V5",
        5 => "V6",
        6 => "V7",
        7 => "V8",
        8 => "V9",
        9 => "V10",
        10 => "T1",
        _ => "BPM",
    }
}

/// The screen shows the latest samples of the output, in their order.
pub proof fn law_trace_shows_latest(ui: UiState, samples: Seq<Single>)
    requires
        ui.wf(),
    ensures
        after_stores(ui.trace(), samples) == (ui.trace() + samples).skip(samples.len() as int),
        after_stores(ui.trace(), samples).len() == WAVEFORM_SIZE,
{
    law_line_holds_latest(ui.trace(), samples);
}

/// Whatever key is pressed, a screen that shows the switches as they are still does so
/// once it has shown what the key has switched.
pub proof fn law_screen_follows_switches(before: UiState, after: UiState, controls: Controls, key: Key)
    requires
        before.agrees(controls),
        after == before.reflected(controls.reaction_to(key)),
    ensures
        after.agrees(controls.after(controls.reaction_to(key))),
{
}

/// Showing what a key has switched changes that on the screen and nothing else: the other
/// switches, the levels and the samples stay as they are.
pub proof fn law_screen_shows_what_is_reported(ui: UiState, reaction: Reaction)
    ensures
        ({
            let after = ui.reflected(reaction);
            &&& after.is_tanpura_on == (if reaction is Tanpura {
                reaction->Tanpura_0
            } else {
                ui.is_tanpura_on
            })
            &&& after.is_bpm_on == (if reaction is Metronome {
                reaction->Metronome_0
            } else {
                ui.is_bpm_on
            })
            &&& after.bpm == (if reaction is Tempo {
                reaction->Tempo_0
            } else {
                ui.bpm
            })
            &&& after.is_filter_on == ui.is_filter_on
            &&& after.is_recording == ui.is_recording
            &&& after.voice_levels == ui.voice_levels
            &&& after.waveform == ui.waveform
            &&& after.wave_idx == ui.wave_idx
        }),
{
}

/// The status text shows each switch in its own place, and the tempo at the end: `tanpura`,
/// `filter`, `recording` and `metronome` are the words for the switches as they stand.
pub proof fn law_header_shows_each_switch(
    ui: UiState,
    tanpura: Seq<char>,
    filter: Seq<char>,
    recording: Seq<char>,
    metronome: Seq<char>,
)
    requires
        tanpura == if ui.is_tanpura_on { "ON"@ } else { "OFF"@ },
        filter == if ui.is_filter_on { "ON"@ } else { "OFF"@ },
        recording == if ui.is_recording { "REC"@ } else { "OFF"@ },
        metronome == if ui.is_bpm_on { "ON"@ } else { "OFF"@ },
    ensures
        ({
            let first = "🎛️  Bhairav Synth OS | T: Tanpura ("@ + tanpura + ") | V: Filter ("@
                + filter + ") | R: Record ("@ + recording + ") | ESC to Quit\nB: Metronome ("@
                + metronome + ") | Tempo: [ decrease, ] increase ("@;
            let text = ui.header_text();
            let tempo = text.subrange(first.len() as int, text.len() - " BPM)"@.len());
            &&& text == first + tempo + " BPM)"@
            &&& tempo == decimal(ui.bpm as nat)
            &&& number(tempo) == ui.bpm
        }),
{
    let first = "🎛️  Bhairav Synth OS | T: Tanpura ("@ + tanpura + ") | V: Filter ("@ + filter
        + ") | R: Record ("@ + recording + ") | ESC to Quit\nB: Metronome ("@ + metronome
        + ") | Tempo: [ decrease, ] increase ("@;
    let text = ui.header_text();
    let tempo = text.subrange(first.len() as int, text.len() - " BPM)"@.len());
    assert(tempo =~= decimal(ui.bpm as nat));
    law_decimal_reads_back(ui.bpm as nat);
}

} // verus!
