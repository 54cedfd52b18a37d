use bhairav_synth::pool::{VoicePool, MAX_VOICES};
use bhairav_synth::single::Single;
use bhairav_synth::voice::{EnvState, Pitch, Voice, VoiceId, Waveform};

fn s(x: f32) -> Single {
    Single { bits: x.to_bits() }
}

fn note(n: u8) -> (VoiceId, Pitch) {
    (VoiceId::Midi(n), Pitch::Tempered(n))
}

fn full_pool(levels: &[f32]) -> VoicePool {
    let mut pool = VoicePool::new();
    for i in 0..MAX_VOICES {
        let (id, pitch) = note(i as u8);
        assert_eq!(pool.note_on(id, pitch), i);
        pool.next_sample(i, s(levels[i]), s(0.125), Waveform::Sine);
    }
    pool
}

#[test]
fn pool_starts_with_twelve_silent_voices() {
    assert_eq!(MAX_VOICES, 12);
    let pool = VoicePool::new();
    for i in 0..MAX_VOICES {
        assert_eq!(pool.voice(i), Voice::new());
    }
}

#[test]
fn notes_take_idle_voices_in_order() {
    let mut pool = VoicePool::new();
    for n in 0..MAX_VOICES {
        let (id, pitch) = note(n as u8);
        assert_eq!(pool.note_on(id, pitch), n);
        let v = pool.voice(n);
        assert_eq!(v.id, id);
        assert_eq!(v.frequency, pitch);
        assert_eq!(v.state, EnvState::Attack);
    }
}

#[test]
fn a_freed_voice_is_taken_before_any_is_stolen() {
    let mut pool = full_pool(&[0.9, 0.8, 0.7, 0.6, 0.5, 0.4, 0.3, 0.2, 0.1, 0.05, 0.02, 0.01]);
    pool.note_off(VoiceId::Midi(4));
    pool.next_sample(4, s(-0.1), s(0.0), Waveform::Sine);
    assert_eq!(pool.voice(4).state, EnvState::Idle);
    assert_eq!(pool.note_on(VoiceId::Key('a'), Pitch::Hundredths(26163)), 4);
}

#[test]
fn the_quietest_voice_is_stolen_and_keeps_level_and_phase() {
    let mut pool = full_pool(&[0.9, 0.8, 0.7, 0.25, 0.5, 0.4, 0.3, 0.26, 0.9, 0.9, 0.9, 0.9]);
    assert_eq!(pool.note_on(VoiceId::Key('k'), Pitch::Hundredths(52325)), 3);
    let v = pool.voice(3);
    assert_eq!(v.id, VoiceId::Key('k'));
    assert_eq!(v.frequency, Pitch::Hundredths(52325));
    assert_eq!(v.env_level, s(0.25));
    assert_eq!(v.phase, s(0.125));
    assert_eq!(v.state, EnvState::Attack);
    assert_eq!(pool.voice(2).id, VoiceId::Midi(2));
    assert_eq!(pool.voice(4).id, VoiceId::Midi(4));
}

#[test]
fn of_equally_quiet_voices_the_first_is_stolen() {
    let mut pool = full_pool(&[0.9, 0.5, 0.25, 0.5, 0.25, 0.25, 0.9, 0.9, 0.9, 0.9, 0.9, 0.25]);
    assert_eq!(pool.note_on(VoiceId::Metronome, Pitch::Hundredths(88000)), 2);
}

#[test]
fn stealing_compares_levels_as_numbers() {
    // The pattern of minus zero is the largest here, but it equals zero.
    let mut pool = full_pool(&[0.5, 0.0, 0.5, -0.0, 0.5, 0.5, 0.5, 0.5, 0.5, 0.5, 0.5, 0.5]);
    assert_eq!(pool.note_on(VoiceId::Metronome, Pitch::Hundredths(88000)), 1);
    let mut pool = full_pool(&[0.5, 0.0, 0.5, -0.25, 0.5, 0.5, 0.5, 0.5, 0.5, 0.5, 0.5, 0.5]);
    assert_eq!(pool.note_on(VoiceId::Metronome, Pitch::Hundredths(88000)), 3);
}

#[test]
fn undefined_levels_leave_no_target_unless_a_voice_is_idle() {
    let nan = f32::NAN;
    let pool = full_pool(&[0.5, 0.5, 0.5, nan, 0.5, 0.5, 0.5, 0.5, 0.5, 0.5, 0.5, 0.5]);
    assert!(!pool.has_target());
    let pool = full_pool(&[0.5; 12]);
    assert!(pool.has_target());
    let mut pool = VoicePool::new();
    pool.note_on(VoiceId::Midi(1), Pitch::Tempered(1));
    pool.next_sample(0, s(nan), s(0.0), Waveform::Sine);
    assert!(pool.has_target());
    assert_eq!(pool.note_on(VoiceId::Midi(2), Pitch::Tempered(2)), 1);
}

#[test]
fn note_off_reaches_only_the_first_rising_voice() {
    let mut pool = VoicePool::new();
    pool.note_on(VoiceId::Midi(60), Pitch::Tempered(60));
    pool.note_on(VoiceId::Midi(60), Pitch::Tempered(60));
    assert_eq!(pool.note_off(VoiceId::Midi(60)), Some(0));
    assert_eq!(pool.voice(0).state, EnvState::Decay);
    assert_eq!(pool.voice(1).state, EnvState::Attack);
    assert_eq!(pool.note_off(VoiceId::Midi(60)), Some(1));
    assert_eq!(pool.note_off(VoiceId::Midi(60)), None);
    assert_eq!(pool.voice(0).state, EnvState::Decay);
}

#[test]
fn note_off_of_another_note_does_nothing() {
    let mut pool = VoicePool::new();
    pool.note_on(VoiceId::Midi(60), Pitch::Tempered(60));
    assert_eq!(pool.note_off(VoiceId::Midi(61)), None);
    assert_eq!(pool.note_off(VoiceId::Key('a')), None);
    assert_eq!(pool.voice(0).state, EnvState::Attack);
}

#[test]
fn note_off_spares_a_note_at_full_level() {
    let mut pool = VoicePool::new();
    pool.note_on(VoiceId::Midi(60), Pitch::Tempered(60));
    pool.next_sample(0, s(1.0), s(0.0), Waveform::Sine);
    let before = pool.voice(0);
    assert_eq!(before.state, EnvState::Decay);
    assert_eq!(pool.note_off(VoiceId::Midi(60)), None);
    assert_eq!(pool.voice(0), before);
}
