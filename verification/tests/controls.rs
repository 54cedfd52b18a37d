use bhairav_synth::command::AudioCommand;
use bhairav_synth::controls::{closest_note, key_note, Controls, Key, Reaction};
use bhairav_synth::voice::{Pitch, VoiceId, Waveform};

fn press(c: char) -> Reaction {
    Controls::new().on_key(Key::Char(c), true)
}

#[test]
fn home_row_plays_raag_bhairav() {
    let notes: Vec<(char, u32, f32)> = vec![
        ('a', 26163, 261.63),
        ('s', 27718, 277.18),
        ('d', 32963, 329.63),
        ('f', 34923, 349.23),
        ('g', 39200, 392.00),
        ('h', 41530, 415.30),
        ('j', 49388, 493.88),
        ('k', 52325, 523.25),
    ];
    for (key, hundredths, hertz) in notes {
        assert_eq!(key_note(key), Some(hundredths));
        assert_eq!(hundredths as f32 / 100.0, hertz);
        assert_eq!(
            press(key),
            Reaction::Send(AudioCommand::NoteOn(VoiceId::Key(key), Pitch::Hundredths(hundredths)))
        );
    }
}

#[test]
fn other_keys_play_nothing() {
    for key in vec!['l', 'A', 'q', ' ', '0', '\u{e9}'] {
        assert_eq!(key_note(key), None);
        assert_eq!(press(key), Reaction::Ignore);
    }
    assert_eq!(Controls::new().on_key(Key::Other, true), Reaction::Ignore);
}

#[test]
fn number_keys_switch_the_timbre() {
    assert_eq!(press('1'), Reaction::Send(AudioCommand::SetWaveform(Waveform::Sine)));
    assert_eq!(press('2'), Reaction::Send(AudioCommand::SetWaveform(Waveform::Square)));
    assert_eq!(press('3'), Reaction::Send(AudioCommand::SetWaveform(Waveform::Sawtooth)));
}

#[test]
fn escape_quits_and_letters_work_the_audio_switches() {
    assert_eq!(Controls::new().on_key(Key::Esc, true), Reaction::Quit);
    assert_eq!(press('v'), Reaction::Send(AudioCommand::ToggleFilter));
    assert_eq!(press('r'), Reaction::Send(AudioCommand::ToggleRecording));
}

#[test]
fn only_presses_count() {
    let mut c = Controls::new();
    for key in vec![Key::Esc, Key::Char('t'), Key::Char(']'), Key::Char('a'), Key::Other] {
        assert_eq!(c.on_key(key, false), Reaction::Ignore);
    }
    assert_eq!(c, Controls::new());
}

#[test]
fn switch_keys_toggle() {
    let mut c = Controls::new();
    assert!(!c.tanpura_active && !c.bpm_active);
    assert_eq!(c.on_key(Key::Char('t'), true), Reaction::Tanpura(true));
    assert_eq!(c.on_key(Key::Char('b'), true), Reaction::Metronome(true));
    assert!(c.tanpura_active && c.bpm_active);
    assert_eq!(c.on_key(Key::Char('t'), true), Reaction::Tanpura(false));
    assert!(!c.tanpura_active && c.bpm_active);
    assert_eq!(c.on_key(Key::Char('b'), true), Reaction::Metronome(false));
    assert_eq!(c, Controls::new());
}

#[test]
fn tempo_goes_in_steps_and_stops_at_the_ends() {
    let mut c = Controls::new();
    assert_eq!(c.current_bpm, 120);
    assert_eq!(c.on_key(Key::Char(']'), true), Reaction::Tempo(125));
    assert_eq!(c.on_key(Key::Char('['), true), Reaction::Tempo(120));
    for _ in 0..100 {
        c.on_key(Key::Char('['), true);
    }
    assert_eq!(c.current_bpm, 40);
    assert_eq!(c.on_key(Key::Char('['), true), Reaction::Tempo(40));
    for _ in 0..100 {
        c.on_key(Key::Char(']'), true);
    }
    assert_eq!(c.current_bpm, 300);
    assert_eq!(c.on_key(Key::Char(']'), true), Reaction::Tempo(300));
}

#[test]
fn tempo_outside_the_range_is_brought_back() {
    let mut low = Controls { current_bpm: 2, ..Controls::new() };
    assert_eq!(low.on_key(Key::Char('['), true), Reaction::Tempo(40));
    let mut high = Controls { current_bpm: u32::MAX, ..Controls::new() };
    assert_eq!(high.on_key(Key::Char(']'), true), Reaction::Tempo(300));
    let mut low_up = Controls { current_bpm: 2, ..Controls::new() };
    assert_eq!(low_up.on_key(Key::Char(']'), true), Reaction::Tempo(7));
}

#[test]
fn pitches_snap_to_the_closest_note() {
    for key in vec!['a', 's', 'd', 'f', 'g', 'h', 'j', 'k'] {
        assert_eq!(closest_note(key_note(key).unwrap()), key);
    }
    assert_eq!(closest_note(0), 'a');
    assert_eq!(closest_note(u32::MAX), 'k');
    assert_eq!(closest_note(44000), 'h');
    assert_eq!(closest_note(46000), 'j');
    // Halfway between Ga and Ma, and one hundredth to either side.
    assert_eq!(closest_note(33942), 'd');
    assert_eq!(closest_note(33943), 'd');
    assert_eq!(closest_note(33944), 'f');
}
