use serial_commander::frequency::period_ticks;

/// The same in floating point.
fn reference(v: f32) -> Option<u32> {
    if v < 15.0 || v > 80.0 {
        return None;
    }
    let period = 100000000.0 / (v * 1000.0);
    Some(period.round() as u32)
}

#[test]
fn periods_of_some_frequencies() {
    assert_eq!(period_ticks(24.5f32.to_bits()), Some(4082));
    assert_eq!(period_ticks(15.0f32.to_bits()), Some(6667));
    assert_eq!(period_ticks(80.0f32.to_bits()), Some(1250));
    assert_eq!(period_ticks(50.0f32.to_bits()), Some(2000));
    assert_eq!(period_ticks(64.0f32.to_bits()), Some(1563));
    assert_eq!(period_ticks(16.0f32.to_bits()), Some(6250));
}

#[test]
fn frequencies_out_of_range_have_none() {
    for v in [14.999999f32, 80.00001, 0.0, -0.0, -24.5, 1e-40, 1e30, f32::INFINITY, f32::NEG_INFINITY, f32::MAX] {
        assert_eq!(period_ticks(v.to_bits()), None);
    }
}

#[test]
fn no_number_has_period_zero() {
    assert_eq!(period_ticks(f32::NAN.to_bits()), Some(0));
    assert_eq!(period_ticks(0xFFC0_0000), Some(0));
    assert_eq!(period_ticks(0x7F80_0001), Some(0));
}

#[test]
fn every_frequency_in_range_agrees_with_floating_point() {
    for bits in 15.0f32.to_bits()..=80.0f32.to_bits() {
        let v = f32::from_bits(bits);
        let ticks = period_ticks(bits);
        if ticks != reference(v) {
            panic!("{v}: {ticks:?} and {:?}", reference(v));
        }
    }
}

#[test]
fn patterns_all_over_agree_with_floating_point() {
    let mut bits: u32 = 0;
    loop {
        assert_eq!(period_ticks(bits), reference(f32::from_bits(bits)));
        match bits.checked_add(4099) {
            Some(next) => bits = next,
            None => break,
        }
    }
}

#[test]
fn periods_are_near_the_exact_ones() {
    let mut bits = 15.0f32.to_bits();
    while bits <= 80.0f32.to_bits() {
        let exact = 100_000.0 / f32::from_bits(bits) as f64;
        let ticks = period_ticks(bits).unwrap();
        assert!((ticks as f64 - exact).abs() <= 0.51);
        assert!(1250 <= ticks && ticks <= 6667);
        bits += 97;
    }
}
