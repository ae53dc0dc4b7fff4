use imaging_engine::binary32::{clamp_unit, is_finite, is_nan, is_negative, is_zero, negate};
use imaging_engine::binary32::{HALF, ONE, QUIET_NAN, SIGN_BIT, ZERO};
use imaging_engine::weight::compute_weight;

fn weight(z: f32) -> f32 {
    f32::from_bits(compute_weight(z.to_bits()))
}

/// The tent as the hardware computes it.
fn hardware_weight(pixel_value: f32) -> f32 {
    let z = pixel_value.clamp(0.0, 1.0);
    if z <= 0.5 {
        z
    } else {
        1.0 - z
    }
}

#[test]
fn weight_of_quarter_three_quarters_and_above_one() {
    assert_eq!(weight(0.25), 0.25);
    assert_eq!(weight(0.75), 0.25);
    assert_eq!(weight(1.2), 0.0);
}

#[test]
fn weight_at_the_ends_and_the_middle() {
    assert_eq!(weight(0.0), 0.0);
    assert_eq!(weight(0.5), 0.5);
    assert_eq!(weight(1.0), 0.0);
    assert_eq!(compute_weight(ZERO), ZERO);
    assert_eq!(compute_weight(HALF), HALF);
    assert_eq!(compute_weight(ONE), ZERO);
}

#[test]
fn weight_clamps_its_input() {
    assert_eq!(weight(-1.0), weight(0.0));
    assert_eq!(weight(2.0), weight(1.0));
    assert_eq!(weight(f32::NEG_INFINITY), 0.0);
    assert_eq!(weight(f32::INFINITY), 0.0);
    assert_eq!(weight(-1.0e-40), 0.0);
    assert_eq!(weight(3.0e38), 0.0);
}

#[test]
fn weight_is_symmetric_where_the_mirror_is_exact() {
    for &z in &[0.0f32, 0.125, 0.25, 0.3, 0.4375, 0.5, 0.6, 0.75, 0.9, 1.0] {
        let mirrored = 1.0 - z;
        // the mirror image is exact for these samples
        assert_eq!(z as f64 + mirrored as f64, 1.0);
        assert_eq!(weight(z), weight(mirrored), "z = {}", z);
    }
}

#[test]
fn weight_near_one_is_exact() {
    // the largest value below one: its distance from one is 2^-24
    let below_one = f32::from_bits(ONE - 1);
    assert_eq!(weight(below_one), 2.0f32.powi(-24));
    // the smallest value above one half
    let above_half = f32::from_bits(HALF + 1);
    assert_eq!(weight(above_half), 0.5 - 2.0f32.powi(-24));
    assert_eq!(compute_weight(HALF + 1), 0x3eff_fffe);
}

#[test]
fn weight_keeps_small_values() {
    let tiny = f32::from_bits(1);
    assert_eq!(compute_weight(1), 1);
    assert_eq!(weight(tiny), tiny);
    assert_eq!(weight(1.0e-20), 1.0e-20);
}

#[test]
fn weight_of_negative_zero_is_negative_zero() {
    assert_eq!(compute_weight(SIGN_BIT), SIGN_BIT);
    assert_eq!(compute_weight(SIGN_BIT), hardware_weight(-0.0).to_bits());
}

#[test]
fn weight_of_nan_is_the_quiet_nan() {
    assert_eq!(compute_weight(f32::NAN.to_bits()), QUIET_NAN);
    assert_eq!(compute_weight(0x7f80_0001), QUIET_NAN);
    assert_eq!(compute_weight(0xffff_ffff), QUIET_NAN);
    assert!(weight(f32::NAN).is_nan());
    assert!(hardware_weight(f32::NAN).is_nan());
}

#[test]
fn weight_agrees_with_the_hardware_on_a_sweep() {
    let mut bits: u32 = 0;
    loop {
        let z = f32::from_bits(bits);
        let got = compute_weight(bits);
        if z.is_nan() {
            assert!(f32::from_bits(got).is_nan());
        } else {
            assert_eq!(got, hardware_weight(z).to_bits(), "bits = {:#x}", bits);
        }
        match bits.checked_add(65_521) {
            Some(next) => bits = next,
            None => break,
        }
    }
}

#[test]
fn weight_agrees_with_the_hardware_on_the_upper_half() {
    // every thousandth value between one half and one, and all near the ends
    let mut bits = HALF;
    while bits <= ONE {
        let z = f32::from_bits(bits);
        assert_eq!(compute_weight(bits), hardware_weight(z).to_bits(), "bits = {:#x}", bits);
        bits += if bits < HALF + 4096 || bits + 4096 > ONE { 1 } else { 997 };
    }
}

#[test]
fn weight_never_exceeds_one_half() {
    let mut bits: u32 = 0;
    loop {
        let w = weight(f32::from_bits(bits));
        if !f32::from_bits(bits).is_nan() {
            assert!((0.0..=0.5).contains(&w));
        }
        match bits.checked_add(1_000_003) {
            Some(next) => bits = next,
            None => break,
        }
    }
}

#[test]
fn words_are_classified_as_the_hardware_does() {
    for &v in &[0.0f32, -0.0, 1.0, -1.0, 0.5, 1.0e-45, -3.0e38, f32::INFINITY, f32::NEG_INFINITY, f32::NAN] {
        let w = v.to_bits();
        assert_eq!(is_nan(w), v.is_nan());
        assert_eq!(is_zero(w), v == 0.0);
        assert_eq!(is_negative(w), v.is_sign_negative());
        assert_eq!(is_finite(w), v.is_finite());
    }
}

#[test]
fn negate_flips_the_sign() {
    for &v in &[0.0f32, -0.0, 1.0, -2.5, 1.0e-45, f32::INFINITY] {
        assert_eq!(negate(v.to_bits()), (-v).to_bits());
    }
    assert_eq!(negate(negate(QUIET_NAN)), QUIET_NAN);
}

#[test]
fn clamp_unit_limits_to_zero_and_one() {
    assert_eq!(clamp_unit(0.25f32.to_bits()), 0.25f32.to_bits());
    assert_eq!(clamp_unit(1.5f32.to_bits()), ONE);
    assert_eq!(clamp_unit(f32::INFINITY.to_bits()), ONE);
    assert_eq!(clamp_unit((-0.5f32).to_bits()), ZERO);
    assert_eq!(clamp_unit(SIGN_BIT), ZERO);
    assert_eq!(clamp_unit(f32::NAN.to_bits()), ZERO);
    assert_eq!(clamp_unit(ONE), ONE);
    assert_eq!(clamp_unit(ZERO), ZERO);
    let mut bits: u32 = 0;
    loop {
        let v = f32::from_bits(bits);
        let expected = v.max(0.0).min(1.0);
        assert_eq!(f32::from_bits(clamp_unit(bits)), expected, "bits = {:#x}", bits);
        match bits.checked_add(7_654_321) {
            Some(next) => bits = next,
            None => break,
        }
    }
}
