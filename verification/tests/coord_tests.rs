use iris::coord::{round_to_i32_bits, round_to_u32_bits, F32_ONE, F32_ZERO};

const SAMPLES: [f32; 32] = [
    0.0, -0.0, 0.25, 0.5, 0.75, 1.0, 1.5, 2.5, -0.5, -1.5, -2.5, 3.49, 100.6, -100.6,
    0.49999997, 8388607.5, 8388609.0, 16777216.0, 1.0e9, -1.0e9, 2147483520.0, 2147483648.0,
    -2147483648.0, -2147483904.0, 4294967040.0, 4294967296.0, 1.0e20, -1.0e20, 1.0e-40, -1.0e-40,
    f32::MIN_POSITIVE, 123456.5,
];

#[test]
fn rounds_to_i32_like_std() {
    for v in SAMPLES {
        assert_eq!(round_to_i32_bits(v.to_bits()), v.round() as i32, "value {v}");
    }
}

#[test]
fn rounds_to_u32_like_std() {
    for v in SAMPLES {
        assert_eq!(round_to_u32_bits(v.to_bits()), v.round() as u32, "value {v}");
    }
}

#[test]
fn non_finite_values_saturate_or_vanish() {
    assert_eq!(round_to_i32_bits(f32::NAN.to_bits()), 0);
    assert_eq!(round_to_i32_bits(f32::INFINITY.to_bits()), i32::MAX);
    assert_eq!(round_to_i32_bits(f32::NEG_INFINITY.to_bits()), i32::MIN);
    assert_eq!(round_to_u32_bits(f32::NAN.to_bits()), 0);
    assert_eq!(round_to_u32_bits(f32::INFINITY.to_bits()), u32::MAX);
    assert_eq!(round_to_u32_bits(f32::NEG_INFINITY.to_bits()), 0);
}

#[test]
fn halves_round_away_from_zero() {
    assert_eq!(round_to_i32_bits(0.5f32.to_bits()), 1);
    assert_eq!(round_to_i32_bits((-0.5f32).to_bits()), -1);
    assert_eq!(round_to_i32_bits(2.5f32.to_bits()), 3);
    assert_eq!(round_to_i32_bits((-2.5f32).to_bits()), -3);
}

#[test]
fn every_small_integer_survives() {
    for n in -5000i32..5000 {
        assert_eq!(round_to_i32_bits((n as f32).to_bits()), n);
    }
}

#[test]
fn constants_are_the_bit_patterns() {
    assert_eq!(F32_ZERO, 0.0f32.to_bits());
    assert_eq!(F32_ONE, 1.0f32.to_bits());
}
