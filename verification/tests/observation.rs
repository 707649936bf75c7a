use price_sampler::observation::{is_finite_bits, Observation, EXPONENT_MASK};

#[test]
fn finite_numbers_become_observations() {
    for value in [0.0_f64, -0.0, 1.0, -1.0, 100.25, 67321.45, f64::MAX, f64::MIN, f64::MIN_POSITIVE, 5e-324] {
        let observation = Observation::from_bits(value.to_bits()).expect("finite");
        assert_eq!(observation.bits(), value.to_bits());
        assert_eq!(f64::from_bits(observation.bits()).to_bits(), value.to_bits());
    }
}

#[test]
fn infinities_and_nans_are_no_observations() {
    for value in [f64::INFINITY, f64::NEG_INFINITY, f64::NAN, -f64::NAN] {
        assert_eq!(Observation::from_bits(value.to_bits()), None);
    }
    assert_eq!(Observation::from_bits(0x7ff0_0000_0000_0001), None);
    assert_eq!(Observation::from_bits(0xffff_ffff_ffff_ffff), None);
}

#[test]
fn finiteness_of_bits_agrees_with_the_float() {
    let patterns: [u64; 10] = [
        0,
        1,
        0x8000_0000_0000_0000,
        0x3ff0_0000_0000_0000,
        0x7fef_ffff_ffff_ffff,
        0x7ff0_0000_0000_0000,
        0x7ff8_0000_0000_0000,
        0xfff0_0000_0000_0000,
        0xffef_ffff_ffff_ffff,
        0x7fe0_0000_0000_0000,
    ];
    for bits in patterns {
        assert_eq!(is_finite_bits(bits), f64::from_bits(bits).is_finite(), "{bits:#x}");
    }
    assert_eq!(EXPONENT_MASK, f64::INFINITY.to_bits());
}

#[test]
fn observations_compare_by_their_bits() {
    let a = Observation::from_bits(1.5_f64.to_bits()).unwrap();
    let b = Observation::from_bits(1.5_f64.to_bits()).unwrap();
    let c = Observation::from_bits(2.5_f64.to_bits()).unwrap();
    assert_eq!(a, b);
    assert_ne!(a, c);
    let copy = a;
    assert_eq!(copy.bits(), a.bits());
}
