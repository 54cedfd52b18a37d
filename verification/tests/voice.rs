use bhairav_synth::single::Single;
use bhairav_synth::voice::{EnvState, Motion, Pitch, Shape, Tone, Voice, VoiceId, Waveform};

fn s(x: f32) -> Single {
    Single { bits: x.to_bits() }
}

fn f(x: Single) -> f32 {
    f32::from_bits(x.bits)
}

fn rising(id: VoiceId) -> Voice {
    Voice { id, frequency: Pitch::Hundredths(44000), phase: s(0.25), env_level: s(0.5), state: EnvState::Attack }
}

#[test]
fn new_voice_is_silent() {
    let v = Voice::new();
    assert_eq!(v.id, VoiceId::Key(' '));
    assert_eq!(v.frequency, Pitch::Hundredths(0));
    assert_eq!(f(v.phase), 0.0);
    assert_eq!(f(v.env_level), 0.0);
    assert_eq!(v.state, EnvState::Idle);
    assert_eq!(v.motion(), Motion::Still);
}

#[test]
fn idle_voice_gives_no_tone_and_keeps_still() {
    let mut v = Voice::new();
    assert_eq!(v.next_sample(s(0.7), s(0.3), Waveform::Sine), None);
    assert_eq!(v, Voice::new());
}

#[test]
fn metronome_moves_faster_than_notes() {
    assert_eq!(rising(VoiceId::Key('a')).motion(), Motion::Rise { millis: 10 });
    assert_eq!(rising(VoiceId::Metronome).motion(), Motion::Rise { millis: 2 });
    let falling = Voice { state: EnvState::Decay, ..rising(VoiceId::Midi(60)) };
    assert_eq!(falling.motion(), Motion::Fall { millis: 1500 });
    let click = Voice { state: EnvState::Decay, ..rising(VoiceId::Metronome) };
    assert_eq!(click.motion(), Motion::Fall { millis: 50 });
}

#[test]
fn rise_below_full_level_goes_on() {
    let mut v = rising(VoiceId::Key('a'));
    let tone = v.next_sample(s(0.75), s(0.26), Waveform::Sine);
    assert_eq!(tone, Some(Tone { shape: Shape::Sine, phase: s(0.25), level: s(0.75) }));
    assert_eq!(v, Voice { env_level: s(0.75), phase: s(0.26), ..rising(VoiceId::Key('a')) });
}

#[test]
fn rise_is_capped_and_turns_into_decay() {
    for over in vec![1.0f32, 1.5, f32::INFINITY] {
        let mut v = rising(VoiceId::Key('a'));
        let tone = v.next_sample(s(over), s(0.26), Waveform::Sawtooth);
        assert_eq!(tone, Some(Tone { shape: Shape::Ramp, phase: s(0.25), level: s(1.0) }));
        assert_eq!(v.state, EnvState::Decay);
        assert_eq!(f(v.env_level), 1.0);
    }
}

#[test]
fn fall_ends_at_zero_and_goes_idle() {
    for under in vec![0.0f32, -0.0, -0.25, f32::NEG_INFINITY] {
        let mut v = Voice { state: EnvState::Decay, ..rising(VoiceId::Key('a')) };
        let tone = v.next_sample(s(under), s(0.26), Waveform::Sine);
        assert_eq!(tone, Some(Tone { shape: Shape::Sine, phase: s(0.25), level: Single::zero() }));
        assert_eq!(v.state, EnvState::Idle);
        assert_eq!(v.env_level, Single::zero());
        assert_eq!(v.phase, s(0.26));
    }
}

#[test]
fn square_is_high_in_the_first_half_of_the_turn() {
    let phases: Vec<(f32, i32)> = vec![(0.0, 3), (0.49999997, 3), (0.5, -3), (0.99, -3)];
    for (phase, tenths) in phases {
        let mut v = Voice { phase: s(phase), ..rising(VoiceId::Key('a')) };
        let tone = v.next_sample(s(0.6), s(0.0), Waveform::Square);
        assert_eq!(tone.map(|t| t.shape), Some(Shape::Flat(tenths)));
    }
}

#[test]
fn an_undefined_level_passes_no_threshold() {
    let mut v = rising(VoiceId::Key('a'));
    v.next_sample(s(f32::NAN), s(0.0), Waveform::Sine);
    assert_eq!(v.state, EnvState::Attack);
    assert!(v.env_level.not_a_number());
}

#[test]
fn envelope_runs_through_attack_and_decay_at_the_expected_rate() {
    let sample_rate = 1000.0f32;
    let mut v = Voice { env_level: s(0.0), ..rising(VoiceId::Metronome) };
    let mut level = 0.0f32;
    let mut states: Vec<EnvState> = Vec::new();
    let mut samples = 0;
    while v.state != EnvState::Idle {
        let before = f(v.env_level);
        assert_eq!(before, level);
        let moved = match v.motion() {
            Motion::Still => before,
            Motion::Rise { millis } => before + 1.0 / (millis as f32 / 1000.0 * sample_rate),
            Motion::Fall { millis } => before - 1.0 / (millis as f32 / 1000.0 * sample_rate),
        };
        v.next_sample(s(moved), s(0.0), Waveform::Sine);
        level = f(v.env_level);
        assert!(level >= 0.0 && level <= 1.0);
        if states.last() != Some(&v.state) {
            states.push(v.state);
        }
        samples += 1;
    }
    assert_eq!(states, vec![EnvState::Attack, EnvState::Decay, EnvState::Idle]);
    assert!(samples >= 52 && samples <= 53, "{}", samples);
}

fn moved(v: &Voice, sample_rate: f32) -> Single {
    let level = f(v.env_level);
    match v.motion() {
        Motion::Still => v.env_level,
        Motion::Rise { millis } => s(level + 1.0 / (millis as f32 / 1000.0 * sample_rate)),
        Motion::Fall { millis } => s(level - 1.0 / (millis as f32 / 1000.0 * sample_rate)),
    }
}

#[test]
fn voices_free_themselves_after_attack_and_decay() {
    for rate in vec![8usize, 1000, 44100, 192000, 384000] {
        let cases: Vec<(VoiceId, f32)> = vec![(VoiceId::Key('a'), 1.51), (VoiceId::Metronome, 0.052)];
        for (id, seconds) in cases {
            let mut v = Voice { env_level: s(0.0), ..rising(id) };
            let mut samples = 0;
            while v.state != EnvState::Idle {
                let m = moved(&v, rate as f32);
                v.next_sample(m, s(0.0), Waveform::Sine);
                samples += 1;
            }
            assert!(samples <= 2 * rate);
            let expected = seconds * rate as f32;
            assert!((samples as f32 - expected).abs() <= expected * 0.02 + 2.0, "{} {}", samples, expected);
            assert_eq!(v.env_level, Single::zero());
            assert_eq!(v.next_sample(s(0.5), s(0.5), Waveform::Sine), None);
        }
    }
}

#[test]
fn voices_stay_valid_over_every_sample() {
    let mut v = Voice { env_level: s(0.0), ..rising(VoiceId::Midi(60)) };
    for _ in 0..4000 {
        let m = moved(&v, 2000.0);
        let next_phase = (f(v.phase) + 0.137) % 1.0;
        v.next_sample(m, s(next_phase), Waveform::Square);
        assert!(f(v.env_level) >= 0.0 && f(v.env_level) <= 1.0);
        assert!(f(v.phase) >= 0.0 && f(v.phase) < 1.0);
        assert!(v.state != EnvState::Idle || f(v.env_level) == 0.0);
    }
    assert_eq!(v.state, EnvState::Idle);
}

#[test]
fn a_click_is_never_behind_a_note() {
    for state in vec![EnvState::Attack, EnvState::Decay] {
        for level in vec![0.0f32, 0.01, 0.5, 0.99, 1.0] {
            let mut note = Voice { state, env_level: s(level), ..rising(VoiceId::Key('a')) };
            let mut drone = Voice { id: VoiceId::Drone('S'), ..note };
            let mut click = Voice { id: VoiceId::Metronome, ..note };
            let (n, c) = (moved(&note, 8000.0), moved(&click, 8000.0));
            let note_tone = note.next_sample(n, s(0.5), Waveform::Sine);
            let drone_tone = drone.next_sample(n, s(0.5), Waveform::Sine);
            click.next_sample(c, s(0.5), Waveform::Sine);
            assert_eq!(note_tone, drone_tone);
            assert_eq!(drone, Voice { id: VoiceId::Drone('S'), ..note });
            if state == EnvState::Attack {
                assert!(f(click.env_level) >= f(note.env_level));
            } else {
                assert!(f(click.env_level) <= f(note.env_level));
            }
        }
    }
}
