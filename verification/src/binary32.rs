//! 32-bit IEEE 754 binary values, read from their bit patterns.
//!
//! A word holds, from the top, one sign bit, eight exponent bits and
//! twenty-three fraction bits. Every word that is not a NaN stands for a
//! number; this module counts that number in steps of 2^-149, the smallest
//! positive value of the format, so that it is an integer.
use vstd::prelude::*;
use vstd::arithmetic::power2::{pow2, lemma_pow2_pos, lemma_pow2_strictly_increases, lemma_pow2_unfold};

verus! {

/// The sign bit alone: the pattern of negative zero.
pub const SIGN_BIT: u32 = 0x8000_0000;

/// The lowest exponent bit: the implicit leading one of a normal value.
pub const HIDDEN_BIT: u32 = 0x0080_0000;

/// Positive infinity; the patterns above it, sign aside, are the NaNs.
pub const INFINITY: u32 = 0x7f80_0000;

/// Positive zero.
pub const ZERO: u32 = 0;

/// One half.
pub const HALF: u32 = 0x3f00_0000;

/// One.
pub const ONE: u32 = 0x3f80_0000;

/// The quiet NaN with an empty payload.
pub const QUIET_NAN: u32 = 0x7fc0_0000;

/// The word without its sign bit.
pub open spec fn abs_spec(w: u32) -> u32 {
    if w >= SIGN_BIT {
        (w - SIGN_BIT) as u32
    } else {
        w
    }
}

/// Whether the sign bit is set: so for negative zero too.
pub open spec fn is_negative_spec(w: u32) -> bool {
    w >= SIGN_BIT
}

/// Whether the word is no number.
pub open spec fn is_nan_spec(w: u32) -> bool {
    abs_spec(w) > INFINITY
}

/// Whether the word is one of the two zeros.
pub open spec fn is_zero_spec(w: u32) -> bool {
    abs_spec(w) == 0
}

/// Neither a NaN nor an infinity.
pub open spec fn is_finite_spec(w: u32) -> bool {
    abs_spec(w) < INFINITY
}

/// The word with its sign bit flipped.
pub open spec fn negate_spec(w: u32) -> u32 {
    if w >= SIGN_BIT {
        (w - SIGN_BIT) as u32
    } else {
        (w + SIGN_BIT) as u32
    }
}

/// The absolute value of a word that is not a NaN, in steps of 2^-149.
/// An infinity counts as the value that the next exponent would begin with,
/// which is above every finite one.
pub open spec fn magnitude(w: u32) -> nat {
    let a = abs_spec(w);
    let e = a / HIDDEN_BIT;
    let f = a % HIDDEN_BIT;
    if e == 0 {
        f as nat
    } else {
        ((HIDDEN_BIT + f) * pow2((e - 1) as nat)) as nat
    }
}

/// The value of a word that is not a NaN, in steps of 2^-149.
pub open spec fn scaled(w: u32) -> int {
    if is_negative_spec(w) {
        -(magnitude(w) as int)
    } else {
        magnitude(w) as int
    }
}

/// The number one, in steps of 2^-149.
pub open spec fn unit() -> int {
    (HIDDEN_BIT * pow2(126)) as int
}

/// A number limited to the range from zero to one.
pub open spec fn unit_clamp(v: int) -> int {
    if v < 0 {
        0
    } else if v > unit() {
        unit()
    } else {
        v
    }
}

/// The word that `clamp_unit` gives: a NaN and every negative word become
/// positive zero, a word above one becomes one.
pub open spec fn clamp_unit_spec(w: u32) -> u32 {
    if is_nan_spec(w) || is_negative_spec(w) {
        ZERO
    } else if w > ONE {
        ONE
    } else {
        w
    }
}

/// The word without its sign bit: the absolute value.
#[verifier::when_used_as_spec(abs_spec)]
pub fn abs(w: u32) -> (r: u32)
    ensures
        r == abs_spec(w),
{
    if w >= SIGN_BIT {
        w - SIGN_BIT
    } else {
        w
    }
}

/// Whether the sign bit is set: so for negative zero too.
#[verifier::when_used_as_spec(is_negative_spec)]
pub fn is_negative(w: u32) -> (r: bool)
    ensures
        r == is_negative_spec(w),
{
    w >= SIGN_BIT
}

/// Whether the word is no number.
#[verifier::when_used_as_spec(is_nan_spec)]
pub fn is_nan(w: u32) -> (r: bool)
    ensures
        r == is_nan_spec(w),
{
    abs(w) > INFINITY
}

/// Whether the word is one of the two zeros.
#[verifier::when_used_as_spec(is_zero_spec)]
pub fn is_zero(w: u32) -> (r: bool)
    ensures
        r == is_zero_spec(w),
{
    abs(w) == 0
}

/// Whether the word is a number other than an infinity.
#[verifier::when_used_as_spec(is_finite_spec)]
pub fn is_finite(w: u32) -> (r: bool)
    ensures
        r == is_finite_spec(w),
{
    abs(w) < INFINITY
}

/// The word with its sign bit flipped: the negated value, and for a NaN
/// the same payload under the other sign.
#[verifier::when_used_as_spec(negate_spec)]
pub fn negate(w: u32) -> (r: u32)
    ensures
        r == negate_spec(w),
        abs(r) == abs(w),
        is_negative(r) != is_negative(w),
        !is_nan(w) ==> scaled(r) == -scaled(w),
{
    if w >= SIGN_BIT {
        w - SIGN_BIT
    } else {
        w + SIGN_BIT
    }
}

/// Limits a sample to the range from zero to one. A NaN counts as zero.
#[verifier::when_used_as_spec(clamp_unit_spec)]
pub fn clamp_unit(w: u32) -> (r: u32)
    ensures
        r == clamp_unit_spec(w),
        !is_nan(r),
        !is_negative(r),
        r <= ONE,
        !is_nan(w) ==> scaled(r) == unit_clamp(scaled(w)),
{
    if is_nan(w) || is_negative(w) {
        proof {
            lemma_magnitude_positive(w);
        }
        ZERO
    } else if w > ONE {
        proof {
            lemma_magnitude_increases(ONE, w);
        }
        ONE
    } else {
        proof {
            if w < ONE {
                lemma_magnitude_increases(w, ONE);
            }
        }
        w
    }
}

/// A word's magnitude is zero exactly for the two zeros.
pub proof fn lemma_magnitude_positive(w: u32)
    ensures
        magnitude(w) == magnitude(abs(w)),
        (magnitude(w) == 0) == is_zero(w),
{
    let a = abs(w);
    let e = a / HIDDEN_BIT;
    let f = a % HIDDEN_BIT;
    if e != 0 {
        lemma_pow2_pos((e - 1) as nat);
        assert((HIDDEN_BIT + f) * pow2((e - 1) as nat) > 0) by (nonlinear_arith)
            requires
                HIDDEN_BIT + f > 0,
                pow2((e - 1) as nat) > 0,
        ;
    }
}

/// Among words without a sign bit, a larger word has a larger magnitude.
pub proof fn lemma_magnitude_increases(a: u32, b: u32)
    requires
        a < b < SIGN_BIT,
    ensures
        magnitude(a) < magnitude(b),
{
    let ea = a / HIDDEN_BIT;
    let fa = a % HIDDEN_BIT;
    let eb = b / HIDDEN_BIT;
    let fb = b % HIDDEN_BIT;
    assert(ea <= eb);
    if ea == eb {
        assert(fa < fb);
        if ea != 0 {
            let p = pow2((ea - 1) as nat);
            lemma_pow2_pos((ea - 1) as nat);
            assert((HIDDEN_BIT + fa) * p < (HIDDEN_BIT + fb) * p) by (nonlinear_arith)
                requires
                    fa < fb,
                    p > 0,
            ;
        }
    } else {
        let q = pow2((eb - 1) as nat);
        lemma_pow2_pos((eb - 1) as nat);
        assert(HIDDEN_BIT * q <= (HIDDEN_BIT + fb) * q) by (nonlinear_arith)
            requires
                fb >= 0,
                q > 0,
        ;
        if ea == 0 {
            assert(HIDDEN_BIT * 1 <= HIDDEN_BIT * q) by (nonlinear_arith)
                requires
                    q >= 1,
            ;
        } else {
            let p = pow2((ea - 1) as nat);
            lemma_pow2_pos((ea - 1) as nat);
            lemma_pow2_unfold(ea as nat);
            assert(pow2(ea as nat) == 2 * p);
            if ea < eb - 1 {
                lemma_pow2_strictly_increases(ea as nat, (eb - 1) as nat);
            }
            assert(2 * p <= q);
            assert((HIDDEN_BIT + fa) * p < HIDDEN_BIT * q) by (nonlinear_arith)
                requires
                    fa < HIDDEN_BIT,
                    p > 0,
                    2 * p <= q,
            ;
        }
    }
}

/// Among words without a sign bit, order and equality of the words are
/// order and equality of the magnitudes.
pub proof fn lemma_magnitude_order(a: u32, b: u32)
    requires
        a < SIGN_BIT,
        b < SIGN_BIT,
    ensures
        (a < b) == (magnitude(a) < magnitude(b)),
        (a == b) == (magnitude(a) == magnitude(b)),
{
    if a < b {
        lemma_magnitude_increases(a, b);
    } else if b < a {
        lemma_magnitude_increases(b, a);
    }
}

/// Two words that are not NaNs, with one sign and one value, are one word.
pub proof fn lemma_value_determines_word(a: u32, b: u32)
    requires
        !is_nan(a),
        !is_nan(b),
        is_negative(a) == is_negative(b),
        scaled(a) == scaled(b),
    ensures
        a == b,
{
    lemma_magnitude_positive(a);
    lemma_magnitude_positive(b);
    lemma_magnitude_order(abs(a), abs(b));
}

/// One half is half of one, and one is the unit.
pub proof fn lemma_half_and_one()
    ensures
        scaled(ONE) == unit(),
        2 * scaled(HALF) == unit(),
        scaled(ZERO) == 0,
        scaled(SIGN_BIT) == 0,
{
    assert(ONE / HIDDEN_BIT == 127 && ONE % HIDDEN_BIT == 0);
    assert(HALF / HIDDEN_BIT == 126 && HALF % HIDDEN_BIT == 0);
    lemma_pow2_unfold(126);
    assert(2 * (HIDDEN_BIT * pow2(125)) == HIDDEN_BIT * (2 * pow2(125))) by (nonlinear_arith);
}

} // verus!
