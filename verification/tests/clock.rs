use bhairav_synth::clock::{metronome_beat, Beat, Tanpura};
use bhairav_synth::command::AudioCommand;
use bhairav_synth::voice::{Pitch, VoiceId};

fn string(name: char, hundredths: u32) -> Beat {
    Beat {
        command: Some(AudioCommand::NoteOn(VoiceId::Drone(name), Pitch::Hundredths(hundredths))),
        sleep_millis: 1500,
    }
}

#[test]
fn tanpura_plays_tonic_and_fifth_in_turn() {
    let mut t = Tanpura::new();
    for _ in 0..3 {
        assert_eq!(t.step(true), string('S', 13081));
        assert_eq!(t.step(true), string('P', 19600));
    }
}

#[test]
fn tanpura_waits_while_it_is_off() {
    let mut t = Tanpura::new();
    for _ in 0..3 {
        assert_eq!(t.step(false), Beat { command: None, sleep_millis: 100 });
    }
    assert_eq!(t.step(true), string('S', 13081));
}

#[test]
fn tanpura_switched_off_between_strings_starts_over() {
    let mut t = Tanpura::new();
    assert_eq!(t.step(true), string('S', 13081));
    assert_eq!(t.step(false), Beat { command: None, sleep_millis: 0 });
    assert_eq!(t.step(false), Beat { command: None, sleep_millis: 100 });
    assert_eq!(t.step(true), string('S', 13081));
}

#[test]
fn drone_and_click_frequencies_are_exact() {
    assert_eq!(13081u32 as f32 / 100.0, 130.81f32);
    assert_eq!(19600u32 as f32 / 100.0, 196.00f32);
    assert_eq!(88000u32 as f32 / 100.0, 880.0f32);
}

#[test]
fn metronome_clicks_at_its_tempo() {
    let click = Some(AudioCommand::NoteOn(VoiceId::Metronome, Pitch::Hundredths(88000)));
    for (bpm, millis) in vec![(120u32, 500u64), (60, 1000), (40, 1500), (300, 200), (7, 2000), (0, 2000), (130, 461), (60_001, 0)] {
        assert_eq!(metronome_beat(true, bpm), Beat { command: click, sleep_millis: millis });
    }
}

#[test]
fn metronome_waits_while_it_is_off() {
    assert_eq!(metronome_beat(false, 120), Beat { command: None, sleep_millis: 50 });
}
