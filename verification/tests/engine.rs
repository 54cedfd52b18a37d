use bhairav_synth::command::AudioCommand;
use bhairav_synth::engine::Engine;
use bhairav_synth::pool::MAX_VOICES;
use bhairav_synth::recorder::{RecordMsg, WavWriterState, WriterAction, CHUNK_SIZE};
use bhairav_synth::single::Single;
use bhairav_synth::ui::UiState;
use bhairav_synth::voice::{EnvState, Motion, Pitch, Shape, Voice, VoiceId, Waveform};

fn s(x: f32) -> Single {
    Single { bits: x.to_bits() }
}

fn f(x: Single) -> f32 {
    f32::from_bits(x.bits)
}

#[test]
fn engine_starts_silent() {
    let e = Engine::new(44100);
    assert_eq!(e.sample_rate, 44100);
    assert_eq!(e.active_waveform, Waveform::Sine);
    assert!(!e.filter_on);
    assert!(!e.recording_on);
    for i in 0..MAX_VOICES {
        assert_eq!(e.voices.voice(i), Voice::new());
    }
}

#[test]
fn commands_reach_what_they_name() {
    let mut e = Engine::new(44100);
    assert!(e.apply(AudioCommand::NoteOn(VoiceId::Midi(69), Pitch::Tempered(69))).is_none());
    assert_eq!(e.voices.voice(0).id, VoiceId::Midi(69));
    assert_eq!(e.voices.voice(0).state, EnvState::Attack);
    assert!(e.apply(AudioCommand::NoteOff(VoiceId::Midi(69))).is_none());
    assert_eq!(e.voices.voice(0).state, EnvState::Decay);
    assert!(e.apply(AudioCommand::SetWaveform(Waveform::Square)).is_none());
    assert_eq!(e.active_waveform, Waveform::Square);
    assert!(e.apply(AudioCommand::ToggleFilter).is_none());
    assert!(e.filter_on);
    assert!(e.apply(AudioCommand::ToggleFilter).is_none());
    assert!(!e.filter_on);
}

#[test]
fn timbre_shapes_every_voice() {
    let mut e = Engine::new(44100);
    e.apply(AudioCommand::NoteOn(VoiceId::Key('a'), Pitch::Hundredths(26163)));
    e.apply(AudioCommand::SetWaveform(Waveform::Square));
    let tone = e.next_sample(0, s(0.1), s(0.75)).unwrap();
    assert_eq!(tone.shape, Shape::Flat(3));
    let tone = e.next_sample(0, s(0.2), s(0.8)).unwrap();
    assert_eq!(tone.shape, Shape::Flat(-3));
    e.apply(AudioCommand::SetWaveform(Waveform::Sawtooth));
    let tone = e.next_sample(0, s(0.3), s(0.9)).unwrap();
    assert_eq!(tone.shape, Shape::Ramp);
    assert_eq!(tone.phase, s(0.8));
    assert_eq!(tone.level, s(0.3));
    assert_eq!(e.next_sample(1, s(0.3), s(0.9)), None);
}

#[test]
fn nothing_is_captured_while_no_recording_runs() {
    let mut e = Engine::new(44100);
    for _ in 0..3 * CHUNK_SIZE {
        assert!(e.capture(s(0.5)).is_none());
    }
}

#[test]
fn a_recording_gives_back_its_whole_chunks() {
    let mut e = Engine::new(48000);
    let mut writer = WavWriterState::new();
    let mut file: Vec<Single> = Vec::new();
    let mut created = 0;
    let mut finalized = 0;
    for round in 0..2usize {
        let mut msgs: Vec<RecordMsg> = Vec::new();
        msgs.extend(e.apply(AudioCommand::ToggleRecording));
        assert!(e.recording_on);
        for i in 0..2 * CHUNK_SIZE + 300 {
            msgs.extend(e.capture(s((round * 10000 + i) as f32)));
        }
        msgs.extend(e.apply(AudioCommand::ToggleRecording));
        assert!(!e.recording_on);
        assert!(matches!(msgs[0], RecordMsg::Start(48000)));
        assert!(matches!(msgs[msgs.len() - 1], RecordMsg::Stop));
        assert_eq!(msgs.len(), 4);
        for msg in msgs {
            match writer.on_message(msg) {
                WriterAction::Create(_) => {
                    created += 1;
                    file.clear();
                }
                WriterAction::Write(samples) => file.extend(samples.iter()),
                WriterAction::Finalize => finalized += 1,
                WriterAction::Skip => panic!("every message counts"),
            }
        }
        assert_eq!(file.len(), 2 * CHUNK_SIZE);
        for i in 0..file.len() {
            assert_eq!(file[i], s((round * 10000 + i) as f32));
        }
    }
    assert_eq!(created, 2);
    assert_eq!(finalized, 2);
}

#[test]
fn publish_shows_levels_and_switches_only() {
    let mut e = Engine::new(44100);
    e.apply(AudioCommand::NoteOn(VoiceId::Key('a'), Pitch::Hundredths(26163)));
    e.apply(AudioCommand::NoteOn(VoiceId::Key('s'), Pitch::Hundredths(27718)));
    e.next_sample(1, s(0.75), s(0.0));
    e.apply(AudioCommand::ToggleFilter);
    e.apply(AudioCommand::ToggleRecording);
    let mut ui = UiState::default();
    ui.push_sample(s(0.5));
    e.publish(&mut ui);
    assert_eq!(ui.voice_levels[0], s(0.0));
    assert_eq!(ui.voice_levels[1], s(0.75));
    assert!(ui.is_filter_on);
    assert!(ui.is_recording);
    assert!(!ui.is_tanpura_on);
    assert!(!ui.is_bpm_on);
    assert_eq!(ui.bpm, 120);
    assert_eq!(ui.waveform[0], s(0.5));
    assert_eq!(ui.wave_idx, 1);
}

/// A voice in plain floating point, to run beside the engine.
#[derive(Clone, PartialEq, Debug)]
struct PlainVoice {
    id: VoiceId,
    phase: f32,
    level: f32,
    state: EnvState,
}

#[test]
fn engine_keeps_step_with_plain_floating_point() {
    let sample_rate = 200.0f32;
    let step = 0.013f32;
    let mut e = Engine::new(200);
    let mut plain = vec![PlainVoice { id: VoiceId::Key(' '), phase: 0.0, level: 0.0, state: EnvState::Idle }; MAX_VOICES];
    for t in 0..4000usize {
        if t % 7 == 0 {
            let id = if t % 5 == 0 { VoiceId::Metronome } else { VoiceId::Midi((t % 90) as u8) };
            e.apply(AudioCommand::NoteOn(id, Pitch::Tempered(60)));
            let target = match plain.iter().position(|v| v.state == EnvState::Idle) {
                Some(i) => i,
                None => {
                    plain
                        .iter()
                        .enumerate()
                        .min_by(|a, b| a.1.level.partial_cmp(&b.1.level).unwrap())
                        .unwrap()
                        .0
                }
            };
            plain[target].id = id;
            plain[target].state = EnvState::Attack;
        }
        if t % 11 == 0 {
            let id = VoiceId::Midi((t % 90) as u8);
            e.apply(AudioCommand::NoteOff(id));
            if let Some(v) = plain.iter_mut().find(|v| v.id == id && v.state == EnvState::Attack) {
                v.state = EnvState::Decay;
            }
        }
        for i in 0..MAX_VOICES {
            let v = e.voices.voice(i);
            let level = f(v.env_level);
            let moved = match v.motion() {
                Motion::Still => level,
                Motion::Rise { millis } => level + 1.0 / (millis as f32 / 1000.0 * sample_rate),
                Motion::Fall { millis } => level - 1.0 / (millis as f32 / 1000.0 * sample_rate),
            };
            let next_phase = (f(v.phase) + step) % 1.0;
            e.next_sample(i, s(moved), s(next_phase));

            let p = &mut plain[i];
            if p.state == EnvState::Idle {
                continue;
            }
            let click = p.id == VoiceId::Metronome;
            match p.state {
                EnvState::Attack => {
                    let time = if click { 0.002f32 } else { 0.01f32 };
                    p.level += 1.0 / (time * sample_rate);
                    if p.level >= 1.0 {
                        p.level = 1.0;
                        p.state = EnvState::Decay;
                    }
                }
                _ => {
                    let time = if click { 0.05f32 } else { 1.5f32 };
                    p.level -= 1.0 / (time * sample_rate);
                    if p.level <= 0.0 {
                        p.level = 0.0;
                        p.state = EnvState::Idle;
                    }
                }
            }
            p.phase = (p.phase + step) % 1.0;
        }
        for i in 0..MAX_VOICES {
            let v = e.voices.voice(i);
            let seen = PlainVoice { id: v.id, phase: f(v.phase), level: f(v.env_level), state: v.state };
            assert_eq!(seen, plain[i]);
        }
    }
}
