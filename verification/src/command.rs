//! The commands that the keyboards and the clocks send to the audio side.

use crate::voice::{Pitch, VoiceId, Waveform};
use vstd::prelude::*;

verus! {

/// A command to the audio side.
#[derive(Clone, Copy, Debug, PartialEq, Eq, Structural)]
pub enum AudioCommand {
    /// Start a note.
    NoteOn(VoiceId, Pitch),
    /// Let a note go.
    NoteOff(VoiceId),
    /// Switch the timbre.
    SetWaveform(Waveform),
    /// Switch the low-pass filter on or off.
    ToggleFilter,
    /// Start or stop recording.
    ToggleRecording,
}

} // verus!
