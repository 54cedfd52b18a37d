use bhairav_synth::controls::{Controls, Key, Reaction};
use bhairav_synth::decimal::append_decimal;
use bhairav_synth::single::Single;
use bhairav_synth::ui::{voice_caption, UiState, WAVEFORM_SIZE};

fn s(x: f32) -> Single {
    Single { bits: x.to_bits() }
}

#[test]
fn screen_starts_silent() {
    let ui = UiState::default();
    assert_eq!(ui.voice_levels, [s(0.0); 12]);
    assert_eq!(ui.waveform, [s(0.0); 256]);
    assert_eq!(ui.wave_idx, 0);
    assert!(!ui.is_recording && !ui.is_filter_on && !ui.is_tanpura_on && !ui.is_bpm_on);
    assert_eq!(ui.bpm, 120);
}

#[test]
fn samples_go_round_the_ring() {
    let mut ui = UiState::default();
    for i in 0..WAVEFORM_SIZE + 3 {
        assert_eq!(ui.wave_idx, i % WAVEFORM_SIZE);
        ui.push_sample(s(i as f32));
    }
    assert_eq!(ui.wave_idx, 3);
    assert_eq!(ui.waveform[0], s(256.0));
    assert_eq!(ui.waveform[2], s(258.0));
    assert_eq!(ui.waveform[3], s(3.0));
    assert_eq!(ui.waveform[255], s(255.0));
}

#[test]
fn header_shows_every_switch() {
    let mut ui = UiState::default();
    assert_eq!(
        ui.header(),
        "🎛️  Bhairav Synth OS | T: Tanpura (OFF) | V: Filter (OFF) | R: Record (OFF) | ESC to Quit\nB: Metronome (OFF) | Tempo: [ decrease, ] increase (120 BPM)"
    );
    ui.is_tanpura_on = true;
    ui.is_filter_on = true;
    ui.is_recording = true;
    ui.is_bpm_on = true;
    ui.bpm = 45;
    assert_eq!(
        ui.header(),
        "🎛️  Bhairav Synth OS | T: Tanpura (ON) | V: Filter (ON) | R: Record (REC) | ESC to Quit\nB: Metronome (ON) | Tempo: [ decrease, ] increase (45 BPM)"
    );
}

#[test]
fn numbers_are_written_in_decimal() {
    for n in vec![0u32, 7, 10, 99, 100, 120, 300, 1_000_009, u32::MAX] {
        let mut text = String::from("n=");
        append_decimal(&mut text, n);
        assert_eq!(text, format!("n={}", n));
    }
}

#[test]
fn screen_follows_the_switches() {
    let mut ui = UiState::default();
    let mut c = Controls::new();
    for key in vec!['t', ']', 'b', ']', 'a', 't', '[', 'x', 'b', '['] {
        let reaction = c.on_key(Key::Char(key), true);
        ui.reflect(reaction);
        assert_eq!(ui.is_tanpura_on, c.tanpura_active);
        assert_eq!(ui.is_bpm_on, c.bpm_active);
        assert_eq!(ui.bpm, c.current_bpm);
    }
    ui.reflect(Reaction::Quit);
    assert_eq!(ui.bpm, 120);
}

#[test]
fn every_voice_has_its_caption() {
    let captions: Vec<&str> = (0..12).map(|i| voice_caption(i)).collect();
    assert_eq!(
        captions,
        vec!["V1", "V2", "V3", "V4", "V5", "V6", "V7", "V8", "V9", "V10", "T1", "BPM"]
    );
}
