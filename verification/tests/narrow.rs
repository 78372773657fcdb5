use sdr_file::narrow::narrow;

fn agrees(x: f64) {
    let narrowed = f32::from_bits(narrow(x.to_bits()));
    let expected = x as f32;
    if expected.is_nan() {
        assert!(narrowed.is_nan(), "{x:e}");
    } else {
        assert_eq!(narrowed.to_bits(), expected.to_bits(), "{x:e}");
    }
}

#[test]
fn sample_rates_narrow_to_the_expected_patterns() {
    assert_eq!(narrow(1_000_000.0f64.to_bits()), 0x4974_2400);
    assert_eq!(narrow(15_360_000.0f64.to_bits()), 0x4B6A_6000);
    assert_eq!(narrow(0.0f64.to_bits()), 0);
    assert_eq!(narrow((-0.0f64).to_bits()), 0x8000_0000);
    assert_eq!(narrow(0.1f64.to_bits()), 0x3DCC_CCCD);
}

#[test]
fn narrowing_agrees_with_the_cast_at_the_edges() {
    for x in [
        0.0,
        1.0,
        0.1,
        16_777_217.0,
        16_777_219.0,
        33_554_433.0,
        f64::MAX,
        f64::MIN_POSITIVE,
        5e-324,
        f64::INFINITY,
        f64::NAN,
        f32::MAX as f64,
        3.402_823_466_385_288_7e38,
        3.402_823_567_797_336_4e38,
        3.402_823_567_797_336_8e38,
        f32::MIN_POSITIVE as f64,
        1.401_298_464_324_817e-45,
        7.006_492_321_624_085e-46,
        7.006_492_321_624_087e-46,
        2.101_947_696_487_225_6e-45,
        1.175_494_280_757_364_3e-38,
        1.175_494_350_822_287_5e-38,
    ] {
        agrees(x);
        agrees(-x);
    }
}

#[test]
fn narrowing_agrees_with_the_cast_on_many_patterns() {
    let mut state: u64 = 0x9E37_79B9_7F4A_7C15;
    for round in 0..200_000u64 {
        state = state.wrapping_mul(6_364_136_223_846_793_005).wrapping_add(1_442_695_040_888_963_407);
        agrees(f64::from_bits(state ^ (state >> 29)));
        // Exponents around the single-precision range, and ties.
        let exponent = 860 + round % 300;
        agrees(f64::from_bits((exponent << 52) | (state >> 12)));
        agrees(f64::from_bits((exponent << 52) | ((state >> 41) << 28)));
    }
}

#[test]
fn single_precision_numbers_are_kept() {
    for bits in (0..0x7F80_0000u32).step_by(99_991) {
        let widened = f32::from_bits(bits) as f64;
        assert_eq!(narrow(widened.to_bits()), bits);
        assert_eq!(narrow((-widened).to_bits()), bits | 0x8000_0000);
    }
}
