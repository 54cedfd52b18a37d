use bhairav_synth::delay::RingBufferDelay;
use bhairav_synth::single::Single;

fn s(x: f32) -> Single {
    Single { bits: x.to_bits() }
}

#[test]
fn line_starts_silent_and_keeps_its_feedback() {
    let mut line = RingBufferDelay::new(4, s(0.6));
    for _ in 0..4 {
        assert_eq!(line.delayed(), Single::zero());
        line.store(s(1.0));
    }
    assert_eq!(line.feedback(), s(0.6));
}

#[test]
fn a_sample_comes_back_after_the_length_of_the_line() {
    for len in vec![1usize, 2, 3, 7] {
        let mut line = RingBufferDelay::new(len, s(0.5));
        for i in 0..40usize {
            let expected = if i < len { 0.0 } else { (i - len + 1) as f32 };
            assert_eq!(line.delayed(), s(expected));
            line.store(s((i + 1) as f32));
        }
    }
}

#[test]
fn a_line_has_one_sample_at_the_least() {
    let mut line = RingBufferDelay::new(0, s(0.5));
    assert_eq!(line.delayed(), Single::zero());
    line.store(s(2.0));
    assert_eq!(line.delayed(), s(2.0));
    line.store(s(3.0));
    assert_eq!(line.delayed(), s(3.0));
}

#[test]
fn the_echo_stays_bounded() {
    let mut line = RingBufferDelay::new(5, s(0.5));
    for i in 0..500 {
        let input = if i % 3 == 0 { -1.0f32 } else { 1.0 };
        let delayed = f32::from_bits(line.delayed().bits);
        let feedback = f32::from_bits(line.feedback().bits);
        assert!(delayed.abs() <= 2.0);
        line.store(s(input + delayed * feedback));
    }
}

#[test]
fn a_round_mixes_every_slot_once() {
    let mut line = RingBufferDelay::new(3, s(0.5));
    for x in vec![1.0f32, 2.0, 4.0] {
        line.store(s(x));
    }
    let mut heard: Vec<f32> = Vec::new();
    for input in vec![0.25f32, 0.0, -1.0, 0.0, 0.0, 0.0] {
        let delayed = f32::from_bits(line.delayed().bits);
        heard.push(delayed);
        line.store(s(input + delayed * 0.5));
    }
    assert_eq!(heard, vec![1.0, 2.0, 4.0, 0.75, 1.0, 1.0]);
    assert_eq!(line.delayed(), s(0.375));
}
