use bhairav_synth::single::Single;

fn s(x: f32) -> Single {
    Single { bits: x.to_bits() }
}

#[test]
fn comparisons_match_the_hardware() {
    let values: Vec<f32> = vec![
        f32::NEG_INFINITY,
        f32::MIN,
        -2.0,
        -1.0,
        -0.5,
        -f32::MIN_POSITIVE,
        -1.0e-45,
        -0.0,
        0.0,
        1.0e-45,
        f32::MIN_POSITIVE,
        0.1,
        0.49999997,
        0.5,
        0.99999994,
        1.0,
        1.0000001,
        2.0,
        f32::MAX,
        f32::INFINITY,
        f32::NAN,
        -f32::NAN,
    ];
    for &a in &values {
        assert_eq!(s(a).not_a_number(), a.is_nan());
        for &b in &values {
            assert_eq!(s(a).at_most(s(b)), a <= b, "{} <= {}", a, b);
            assert_eq!(s(a).below(s(b)), a < b, "{} < {}", a, b);
        }
    }
}

#[test]
fn constants_are_zero_half_and_one() {
    assert_eq!(Single::zero(), s(0.0));
    assert_eq!(Single::half(), s(0.5));
    assert_eq!(Single::one(), s(1.0));
}
