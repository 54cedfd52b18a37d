//! Reading the raw bytes of a MIDI keyboard.

use crate::command::AudioCommand;
use crate::tuning::{height, law_tempered_scale, twelfth_power};
use crate::voice::{Pitch, VoiceId};
use vstd::prelude::*;

verus! {

/// The message kind that starts a note: the upper half of the status byte.
pub const KIND_NOTE_ON: u8 = 9;

/// The message kind that ends a note.
pub const KIND_NOTE_OFF: u8 = 8;

/// The command that a message stands for. The first byte holds the kind in its upper
/// half and the channel in its lower half, the second is the note number and the
/// third the velocity. A note started without velocity is a note ended; all other
/// kinds, and messages that are cut short, stand for nothing.
pub open spec fn meaning(message: Seq<u8>) -> Option<AudioCommand> {
    if message.len() < 3 {
        None
    } else {
        let kind = message[0] / 16;
        let note = message[1];
        let velocity = message[2];
        if kind == KIND_NOTE_ON && velocity > 0 {
            Some(AudioCommand::NoteOn(VoiceId::Midi(note), Pitch::Tempered(note)))
        } else if kind == KIND_NOTE_OFF || kind == KIND_NOTE_ON {
            Some(AudioCommand::NoteOff(VoiceId::Midi(note)))
        } else {
            None
        }
    }
}

/// Reads a message of a MIDI keyboard.
pub fn decode_midi(message: &[u8]) -> (r: Option<AudioCommand>)
    ensures
        r == meaning(message@),
{
    if message.len() < 3 {
        return None;
    }
    let first: u8 = message[0];
    let status: u8 = first & 0xF0;
    let note: u8 = message[1];
    let velocity: u8 = message[2];
    assert(((first & 0xF0) == 0x90) == (first / 16 == 9) && ((first & 0xF0) == 0x80) == (first / 16
        == 8)) by (bit_vector);
    if status == 0x90 && velocity > 0 {
        Some(AudioCommand::NoteOn(VoiceId::Midi(note), Pitch::Tempered(note)))
    } else if status == 0x80 || (status == 0x90 && velocity == 0) {
        Some(AudioCommand::NoteOff(VoiceId::Midi(note)))
    } else {
        None
    }
}

/// The channel does not matter, nor does anything after the third byte.
pub proof fn law_channel_and_tail_ignored(a: Seq<u8>, b: Seq<u8>)
    requires
        a.len() >= 3,
        b.len() >= 3,
        a[0] / 16 == b[0] / 16,
        a[1] == b[1],
        a[2] == b[2],
    ensures
        meaning(a) == meaning(b),
{
}

/// Starting a note without velocity is ending it, whatever the velocity of the end.
pub proof fn law_zero_velocity_ends_note(start: Seq<u8>, end: Seq<u8>)
    requires
        start.len() >= 3,
        end.len() >= 3,
        start[0] / 16 == KIND_NOTE_ON,
        end[0] / 16 == KIND_NOTE_OFF,
        start[1] == end[1],
        start[2] == 0,
    ensures
        meaning(start) == meaning(end),
        meaning(end) == Some(AudioCommand::NoteOff(VoiceId::Midi(end[1]))),
{
}

/// What a message starts, the note-off message of the same note number ends: both name
/// the same voice.
pub proof fn law_end_names_what_start_named(start: Seq<u8>, end: Seq<u8>)
    requires
        start.len() >= 3,
        end.len() >= 3,
        end[0] / 16 == KIND_NOTE_OFF,
        start[1] == end[1],
    ensures
        meaning(start) matches Some(AudioCommand::NoteOn(id, _)) ==> meaning(end) == Some(
            AudioCommand::NoteOff(id),
        ),
{
}

/// A message starts a note exactly where its status byte lies in the range of note-on and
/// it has a velocity; the note is that of its second byte, and its pitch is the tempered
/// pitch of that number.
pub proof fn law_started_note_has_its_number(message: Seq<u8>)
    ensures
        match meaning(message) {
            Some(AudioCommand::NoteOn(id, pitch)) => {
                &&& message.len() >= 3 && 0x90 <= message[0] <= 0x9F && message[2] != 0
                &&& id == VoiceId::Midi(message[1])
                &&& pitch == Pitch::Tempered(message[1])
            },
            _ => message.len() < 3 || message[0] < 0x90 || message[0] > 0x9F || message[2] == 0,
        },
{
}

/// A message ends a note exactly where its status byte lies in the range of note-off, or in
/// that of note-on without a velocity; the note is that of its second byte. No message is
/// anything but the start or the end of a note.
pub proof fn law_ended_note_has_its_number(message: Seq<u8>)
    ensures
        match meaning(message) {
            Some(AudioCommand::NoteOn(_, _)) => true,
            Some(AudioCommand::NoteOff(id)) => {
                &&& message.len() >= 3
                &&& 0x80 <= message[0] <= 0x8F || (0x90 <= message[0] <= 0x9F && message[2] == 0)
                &&& id == VoiceId::Midi(message[1])
            },
            Some(_) => false,
            None => message.len() < 3 || message[0] < 0x80 || message[0] > 0x9F,
        },
{
}

/// Of two messages that start notes, the one with the higher note number starts the higher
/// pitch, and twelve numbers up is twice the frequency; equal numbers are one pitch,
/// whatever the velocities.
pub proof fn law_higher_number_higher_pitch(low: Seq<u8>, high: Seq<u8>)
    requires
        meaning(low) is Some && meaning(low)->0 is NoteOn,
        meaning(high) is Some && meaning(high)->0 is NoteOn,
        low[1] <= high[1],
    ensures
        ({
            let (a, b) = (meaning(low)->0->NoteOn_1, meaning(high)->0->NoteOn_1);
            &&& low[1] == high[1] ==> a == b
            &&& low[1] < high[1] ==> height(a) < height(b)
            &&& high[1] == low[1] + 12 ==> height(b) == twelfth_power(2) * height(a)
        }),
{
    if low[1] < high[1] {
        law_tempered_scale(low[1], high[1]);
    }
}

} // verus!
