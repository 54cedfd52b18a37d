use bhairav_synth::recorder::{
    Outbox, RecordMsg, Recorder, WavFormat, WavWriterState, WriterAction, CHUNK_SIZE, RECORDING_PATH,
};
use bhairav_synth::single::Single;

fn n(i: usize) -> Single {
    Single { bits: i as u32 }
}

#[test]
fn chunks_hold_every_sample_in_order() {
    let mut rec = Recorder::new();
    let mut out: Vec<Single> = Vec::new();
    let total = 3 * CHUNK_SIZE + 17;
    for i in 0..total {
        let chunk = rec.push(n(i));
        assert_eq!(chunk.is_some(), (i + 1) % CHUNK_SIZE == 0);
        if let Some(c) = chunk {
            out.extend(c.iter());
        }
    }
    assert_eq!(out.len(), 3 * CHUNK_SIZE);
    for i in 0..out.len() {
        assert_eq!(out[i], n(i));
    }
}

#[test]
fn clearing_drops_what_waits() {
    let mut rec = Recorder::new();
    for i in 0..100 {
        assert!(rec.push(n(i)).is_none());
    }
    rec.clear();
    for i in 0..CHUNK_SIZE - 1 {
        assert!(rec.push(n(1000 + i)).is_none());
    }
    let chunk = rec.push(n(9999)).unwrap();
    assert_eq!(chunk[0], n(1000));
    assert_eq!(chunk[CHUNK_SIZE - 1], n(9999));
}

#[test]
fn start_creates_a_mono_float_file() {
    let mut w = WavWriterState::new();
    assert!(!w.open);
    match w.on_message(RecordMsg::Start(48000)) {
        WriterAction::Create(format) => assert_eq!(
            format,
            WavFormat { channels: 1, sample_rate: 48000, bits_per_sample: 32, floating: true }
        ),
        _ => panic!("a start creates a file"),
    }
    assert!(w.open);
    assert_eq!(RECORDING_PATH, "synth_recording.wav");
}

#[test]
fn samples_are_written_between_start_and_stop_only() {
    let audio = RecordMsg::Audio([n(7); CHUNK_SIZE]);
    let mut w = WavWriterState::new();
    assert!(matches!(w.on_message(audio), WriterAction::Skip));
    assert!(matches!(w.on_message(RecordMsg::Stop), WriterAction::Skip));
    w.on_message(RecordMsg::Start(44100));
    match w.on_message(audio) {
        WriterAction::Write(samples) => assert_eq!(samples, [n(7); CHUNK_SIZE]),
        _ => panic!("an open file takes samples"),
    }
    assert!(w.open);
    assert!(matches!(w.on_message(RecordMsg::Stop), WriterAction::Finalize));
    assert!(!w.open);
    assert!(matches!(w.on_message(audio), WriterAction::Skip));
    assert!(matches!(w.on_message(RecordMsg::Stop), WriterAction::Skip));
}

#[test]
fn a_second_start_begins_a_new_file() {
    let mut w = WavWriterState::new();
    w.on_message(RecordMsg::Start(44100));
    assert!(matches!(w.on_message(RecordMsg::Start(44100)), WriterAction::Create(_)));
    assert!(w.open);
}

fn drain(outbox: &mut Outbox) -> String {
    let mut line = String::new();
    while let Some(msg) = outbox.first() {
        match msg {
            RecordMsg::Start(rate) => line.push_str(&format!("start {} ", rate)),
            RecordMsg::Stop => line.push_str("stop "),
            RecordMsg::Audio(_) => panic!("samples never wait"),
        }
        outbox.sent();
    }
    line
}

#[test]
fn samples_pass_an_empty_outbox_and_stop_at_a_full_one() {
    let audio = RecordMsg::Audio([n(3); CHUNK_SIZE]);
    let mut outbox = Outbox::new();
    assert!(outbox.first().is_none());
    assert!(matches!(outbox.offer(audio), Some(RecordMsg::Audio(_))));
    assert!(outbox.offer(RecordMsg::Start(44100)).is_none());
    assert!(outbox.offer(audio).is_none());
    assert_eq!(drain(&mut outbox), "start 44100 ");
    assert!(outbox.offer(audio).is_some());
    assert!(outbox.offer(RecordMsg::Stop).is_none());
    assert!(outbox.offer(audio).is_none());
    assert_eq!(drain(&mut outbox), "stop ");
}

#[test]
fn waiting_starts_and_stops_keep_their_meaning() {
    let start = RecordMsg::Start(48000);
    let stop = RecordMsg::Stop;
    let cases: Vec<(Vec<RecordMsg>, &str)> = vec![
        (vec![], ""),
        (vec![start, stop], "start 48000 stop "),
        (vec![stop, start], "stop start 48000 "),
        (vec![stop, start, stop], "stop start 48000 stop "),
        (vec![start, stop, start], "start 48000 "),
        (vec![stop, start, stop, start, stop], "stop start 48000 stop "),
    ];
    for (msgs, expected) in cases {
        let mut outbox = Outbox::new();
        for msg in msgs {
            assert!(outbox.offer(msg).is_none());
        }
        assert_eq!(drain(&mut outbox), expected);
    }
}
