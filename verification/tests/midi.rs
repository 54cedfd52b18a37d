use bhairav_synth::command::AudioCommand;
use bhairav_synth::midi::decode_midi;
use bhairav_synth::voice::{Pitch, VoiceId};

fn on(note: u8) -> Option<AudioCommand> {
    Some(AudioCommand::NoteOn(VoiceId::Midi(note), Pitch::Tempered(note)))
}

fn off(note: u8) -> Option<AudioCommand> {
    Some(AudioCommand::NoteOff(VoiceId::Midi(note)))
}

#[test]
fn note_messages_are_read_on_every_channel() {
    for channel in 0..16u8 {
        assert_eq!(decode_midi(&[0x90 | channel, 60, 100]), on(60));
        assert_eq!(decode_midi(&[0x80 | channel, 60, 100]), off(60));
        assert_eq!(decode_midi(&[0x80 | channel, 60, 0]), off(60));
    }
}

#[test]
fn zero_velocity_is_a_release() {
    assert_eq!(decode_midi(&[0x90, 69, 0]), off(69));
    assert_eq!(decode_midi(&[0x9F, 69, 0]), off(69));
    assert_eq!(decode_midi(&[0x90, 69, 1]), on(69));
}

#[test]
fn other_kinds_are_ignored() {
    for kind in vec![0x00u8, 0x70, 0xA0, 0xB0, 0xC0, 0xD0, 0xE0, 0xF0, 0xF8] {
        assert_eq!(decode_midi(&[kind, 60, 100]), None);
        assert_eq!(decode_midi(&[kind, 60, 0]), None);
    }
}

#[test]
fn short_messages_are_ignored_and_long_ones_cut() {
    assert_eq!(decode_midi(&[]), None);
    assert_eq!(decode_midi(&[0x90]), None);
    assert_eq!(decode_midi(&[0x90, 60]), None);
    assert_eq!(decode_midi(&[0x90, 60, 100, 1, 2, 3]), on(60));
}
