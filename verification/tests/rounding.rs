use imaging_engine::arithmetic::{ask, Primitive};
use imaging_engine::binary32::{negate, SIGN_BIT, ZERO};
use imaging_engine::rounding::{EIGHT_STEP_PARTS, FOUR_STEP_PARTS, STEP_PARTS};

/// The arithmetic of the hardware, in single precision.
fn unit(p: Primitive, a: u32, b: u32) -> u32 {
    let x = f32::from_bits(a);
    let y = f32::from_bits(b);
    match p {
        Primitive::Add => (x + y).to_bits(),
        Primitive::Sub => (x - y).to_bits(),
        Primitive::Mul => (x * y).to_bits(),
        Primitive::Div => (x / y).to_bits(),
        Primitive::Sqrt => x.sqrt().to_bits(),
        Primitive::Atan => x.atan().to_bits(),
        Primitive::Exp2 => 2.0f32.powf(x).to_bits(),
    }
}

fn value(w: u32) -> f64 {
    f32::from_bits(w) as f64
}

/// Finite words of many sizes and both signs.
fn finite_words() -> Vec<u32> {
    let mut words = vec![ZERO, SIGN_BIT, 1, 0x007f_ffff, 0x0080_0000, 0x7f7f_ffff, 0xff7f_ffff];
    let mut w: u32 = 0x0030_0000;
    while w < 0x7f80_0000 {
        words.push(w);
        words.push(w | SIGN_BIT);
        w += 0x0123_4567;
    }
    words
}

#[test]
fn steps_are_powers_of_two() {
    assert_eq!(STEP_PARTS, 1 << 23);
    assert_eq!(FOUR_STEP_PARTS, 1 << 21);
    assert_eq!(EIGHT_STEP_PARTS, 1 << 20);
}

#[test]
fn the_hardware_adds_to_zero_without_error() {
    for a in finite_words() {
        let expected = if a == SIGN_BIT { ZERO } else { a };
        assert_eq!(ask(&unit, Primitive::Add, ZERO, a), expected, "a = {:#x}", a);
    }
}

#[test]
fn the_hardware_doubles_without_error() {
    for a in finite_words() {
        let twice = ask(&unit, Primitive::Add, a, a);
        if f32::from_bits(twice).is_finite() {
            assert_eq!(value(twice), 2.0 * value(a), "a = {:#x}", a);
        }
    }
}

#[test]
fn the_hardware_multiplies_within_a_step() {
    let words = finite_words();
    for &a in &words {
        for &b in &words {
            let p = f32::from_bits(ask(&unit, Primitive::Mul, a, b));
            if p.is_finite() && p.abs() >= f32::MIN_POSITIVE {
                let exact = value(a) * value(b);
                assert!((p as f64 - exact).abs() * STEP_PARTS as f64 <= exact.abs());
            }
        }
    }
}

#[test]
fn the_hardware_divides_within_a_step() {
    let words = finite_words();
    for &a in &words {
        for &b in &words {
            if value(b) == 0.0 {
                continue;
            }
            let q = f32::from_bits(ask(&unit, Primitive::Div, a, b));
            if q.is_finite() && q.abs() >= f32::MIN_POSITIVE {
                // the quotient times the divisor against the dividend
                let back = q as f64 * value(b);
                assert!((back - value(a)).abs() * STEP_PARTS as f64 <= value(a).abs());
            }
        }
    }
}

#[test]
fn the_powers_of_the_hardware_are_opposite() {
    let mut ev = -60.0f32;
    while ev <= 60.0 {
        let up = ask(&unit, Primitive::Exp2, ev.to_bits(), 0);
        let down = ask(&unit, Primitive::Exp2, negate(ev.to_bits()), 0);
        assert!(f32::from_bits(up).is_finite() && f32::from_bits(down).is_finite());
        let product = value(up) * value(down);
        assert!((product - 1.0).abs() * FOUR_STEP_PARTS as f64 <= 1.0, "ev = {}", ev);
        ev += 0.37;
    }
}
