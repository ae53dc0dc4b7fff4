use imaging_engine::count::{from_count, truncate};

#[test]
fn small_counts_are_exact() {
    assert_eq!(from_count(0), 0.0f32.to_bits());
    assert_eq!(from_count(1), 1.0f32.to_bits());
    assert_eq!(from_count(2), 2.0f32.to_bits());
    assert_eq!(from_count(3), 3.0f32.to_bits());
    assert_eq!(from_count(255), 255.0f32.to_bits());
    assert_eq!(from_count(4095), 4095.0f32.to_bits());
    assert_eq!(from_count((1 << 24) - 1), 16_777_215.0f32.to_bits());
    assert_eq!(from_count(1 << 24), 16_777_216.0f32.to_bits());
}

#[test]
fn large_counts_round_to_the_nearest_value_and_ties_to_even() {
    // above 2^24 the values of the format are two apart
    assert_eq!(f32::from_bits(from_count((1 << 24) + 1)), 16_777_216.0);
    assert_eq!(f32::from_bits(from_count((1 << 24) + 2)), 16_777_218.0);
    assert_eq!(f32::from_bits(from_count((1 << 24) + 3)), 16_777_220.0);
    assert_eq!(f32::from_bits(from_count((1 << 25) - 1)), 33_554_432.0);
    // above 2^25 they are four apart
    assert_eq!(f32::from_bits(from_count((1 << 25) + 1)), 33_554_432.0);
    assert_eq!(f32::from_bits(from_count((1 << 25) + 2)), 33_554_432.0);
    assert_eq!(f32::from_bits(from_count((1 << 25) + 3)), 33_554_436.0);
    assert_eq!(f32::from_bits(from_count((1 << 25) + 6)), 33_554_440.0);
    assert_eq!(f32::from_bits(from_count(u32::MAX as u64)), 4_294_967_296.0);
    assert_eq!(f32::from_bits(from_count(u64::MAX)), 18_446_744_073_709_551_616.0);
}

#[test]
fn counts_agree_with_the_hardware() {
    for shift in 0..64 {
        let base: u64 = 1 << shift;
        for delta in 0..300u64 {
            for n in [base.wrapping_add(delta), base.wrapping_sub(delta), base.wrapping_mul(3) ^ delta] {
                assert_eq!(from_count(n), (n as f32).to_bits(), "n = {}", n);
            }
        }
        // around the middle between two values of the format
        if shift >= 25 {
            let middle = base + (1 << (shift - 24));
            for n in (middle - 3)..=(middle + 3) {
                assert_eq!(from_count(n), (n as f32).to_bits(), "n = {}", n);
            }
            let odd = base + 3 * (1 << (shift - 24));
            for n in (odd - 3)..=(odd + 3) {
                assert_eq!(from_count(n), (n as f32).to_bits(), "n = {}", n);
            }
        }
    }
    let mut n: u64 = 0;
    loop {
        assert_eq!(from_count(n), (n as f32).to_bits(), "n = {}", n);
        match n.checked_add(n / 1000 + 7919) {
            Some(next) => n = next,
            None => break,
        }
    }
}

#[test]
fn truncate_cuts_to_the_whole_part() {
    assert_eq!(truncate(0.0f32.to_bits()), 0);
    assert_eq!(truncate(0.999f32.to_bits()), 0);
    assert_eq!(truncate(1.0f32.to_bits()), 1);
    assert_eq!(truncate(1.5f32.to_bits()), 1);
    assert_eq!(truncate(2.9999f32.to_bits()), 2);
    assert_eq!(truncate(4095.75f32.to_bits()), 4095);
    assert_eq!(truncate(16_777_216.0f32.to_bits()), 16_777_216);
    assert_eq!(truncate(1.0e10f32.to_bits()), 1.0e10f32 as u64);
}

#[test]
fn truncate_of_what_has_no_whole_part() {
    assert_eq!(truncate((-0.0f32).to_bits()), 0);
    assert_eq!(truncate((-0.5f32).to_bits()), 0);
    assert_eq!(truncate((-7.0f32).to_bits()), 0);
    assert_eq!(truncate(f32::NEG_INFINITY.to_bits()), 0);
    assert_eq!(truncate(f32::NAN.to_bits()), 0);
    assert_eq!(truncate(1), 0);
}

#[test]
fn truncate_stops_at_the_largest_integer() {
    assert_eq!(truncate(f32::INFINITY.to_bits()), u64::MAX);
    assert_eq!(truncate(f32::MAX.to_bits()), u64::MAX);
    assert_eq!(truncate(18_446_744_073_709_551_616.0f32.to_bits()), u64::MAX);
    assert_eq!(truncate(9_223_372_036_854_775_808.0f32.to_bits()), 1 << 63);
    let below = f32::from_bits(18_446_744_073_709_551_616.0f32.to_bits() - 1);
    assert_eq!(truncate(below.to_bits()), below as u64);
}

#[test]
fn truncate_agrees_with_the_hardware() {
    let mut bits: u32 = 0;
    loop {
        let x = f32::from_bits(bits);
        assert_eq!(truncate(bits), x as u64, "bits = {:#x}", bits);
        match bits.checked_add(48_611) {
            Some(next) => bits = next,
            None => break,
        }
    }
}

#[test]
fn a_count_comes_back_from_its_value() {
    for n in [0u64, 1, 2, 77, 4095, 65_536, 16_777_215, 16_777_216, 1 << 40, 1 << 63] {
        assert_eq!(truncate(from_count(n)), n);
    }
}
