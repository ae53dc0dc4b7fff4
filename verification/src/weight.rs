//! The confidence that exposure fusion places in a sample.
use vstd::prelude::*;
use vstd::arithmetic::power2::{pow2, lemma_pow2_pos, lemma_pow2_strictly_increases, lemma_pow2_unfold, lemma2_to64};
use crate::binary32::{
    is_nan, is_negative, scaled, unit, unit_clamp, magnitude, lemma_half_and_one,
    lemma_magnitude_increases, lemma_magnitude_positive, lemma_value_determines_word, HALF,
    HIDDEN_BIT, ONE, QUIET_NAN, SIGN_BIT, ZERO,
};

verus! {

/// The tent over the range from zero to one: a number up to one half is
/// kept, a larger one is taken from one.
pub open spec fn tent(v: int) -> int {
    if 2 * v <= unit() {
        v
    } else {
        unit() - v
    }
}

/// The weight of a sample as a number, in steps of 2^-149: the tent of the
/// sample limited to the range from zero to one.
pub open spec fn weight_value(w: u32) -> int
    recommends
        !is_nan(w),
{
    tent(unit_clamp(scaled(w)))
}

/// Whether `r` is the weight of the sample `z` as a word: the quiet NaN for
/// a NaN, else the word of the weight's value, with the sign bit only where
/// the sample is negative zero.
pub open spec fn is_weight_of(r: u32, z: u32) -> bool {
    if is_nan(z) {
        r == QUIET_NAN
    } else {
        &&& !is_nan(r)
        &&& scaled(r) == weight_value(z)
        &&& is_negative(r) <==> z == SIGN_BIT
    }
}

/// The weight of a sample as a word.
pub open spec fn weight_word(z: u32) -> u32 {
    choose|r: u32| is_weight_of(r, z)
}

/// A sample has one weight.
pub proof fn lemma_weight_is_unique(r: u32, z: u32)
    requires
        is_weight_of(r, z),
    ensures
        r == weight_word(z),
{
    let c = weight_word(z);
    if !is_nan(z) {
        lemma_value_determines_word(r, c);
    }
}

/// The weight of a sample: the sample itself up to one half, one minus the
/// sample above it, after the sample was limited to the range from zero to
/// one. Samples near zero and near one count little, mid-tones count up to
/// one half.
///
/// The result is exact: on the upper half of the range the difference from
/// one is itself a value of the format. Negative zero is kept as it is; a
/// NaN gives the quiet NaN.
pub fn compute_weight(pixel_value: u32) -> (r: u32)
    ensures
        is_weight_of(r, pixel_value),
        r == weight_word(pixel_value),
{
    let r = weight_bits(pixel_value);
    proof {
        lemma_weight_is_unique(r, pixel_value);
    }
    r
}

fn weight_bits(w: u32) -> (r: u32)
    ensures
        is_weight_of(r, w),
{
    proof {
        lemma_half_and_one();
        lemma_magnitude_positive(w);
    }
    if is_nan(w) {
        QUIET_NAN
    } else if is_negative(w) {
        if w == SIGN_BIT {
            w
        } else {
            ZERO
        }
    } else if w <= HALF {
        proof {
            if w < HALF {
                lemma_magnitude_increases(w, HALF);
            }
        }
        w
    } else if w >= ONE {
        proof {
            lemma_magnitude_increases(HALF, w);
            if w > ONE {
                lemma_magnitude_increases(ONE, w);
            }
        }
        ZERO
    } else {
        let f: u32 = w - HALF;
        let rest: u32 = HIDDEN_BIT - f;
        let mut m: u32 = rest;
        let mut e: u32 = 126;
        proof {
            lemma_magnitude_increases(HALF, w);
            assert(w / HIDDEN_BIT == 126 && w % HIDDEN_BIT == f);
            lemma_pow2_unfold(126);
            assert(unit() - scaled(w) == rest * pow2(125)) by (nonlinear_arith)
                requires
                    unit() == HIDDEN_BIT * (2 * pow2(125)),
                    scaled(w) == (HIDDEN_BIT + f) * pow2(125),
                    rest == HIDDEN_BIT - f,
            ;
            assert(pow2(0) == 1) by {
                lemma2_to64();
            }
            assert(rest * pow2(0) == m) by (nonlinear_arith)
                requires
                    pow2(0) == 1,
                    rest == m,
            ;
        }
        while m < HIDDEN_BIT
            invariant
                1 <= rest < HIDDEN_BIT,
                1 <= e <= 126,
                rest <= m < 2 * HIDDEN_BIT,
                rest * pow2((126 - e) as nat) == m,
                m * pow2((e - 1) as nat) == rest * pow2(125),
            decreases e,
        {
            proof {
                let k = (126 - e) as nat;
                lemma_pow2_unfold(k + 1);
                lemma_pow2_pos(k);
                assert(rest * pow2(k + 1) == 2 * m) by (nonlinear_arith)
                    requires
                        rest * pow2(k) == m,
                        pow2(k + 1) == 2 * pow2(k),
                ;
                // the exponent cannot run out before the leading bit is in place
                if e == 1 {
                    lemma2_to64();
                    assert(pow2(125) >= pow2(24)) by {
                        lemma_pow2_strictly_increases(24, 125);
                    }
                    assert(rest * pow2(125) >= 0x100_0000) by (nonlinear_arith)
                        requires
                            rest >= 1,
                            pow2(125) >= 0x100_0000,
                    ;
                    assert(m * pow2(0) == m) by (nonlinear_arith)
                        requires
                            pow2(0) == 1,
                    ;
                    assert(false);
                }
                lemma_pow2_unfold((e - 1) as nat);
                assert((2 * m) * pow2((e - 2) as nat) == rest * pow2(125)) by (nonlinear_arith)
                    requires
                        m * pow2((e - 1) as nat) == rest * pow2(125),
                        pow2((e - 1) as nat) == 2 * pow2((e - 2) as nat),
                ;
            }
            m = m * 2;
            e = e - 1;
        }
        let r: u32 = e * HIDDEN_BIT + (m - HIDDEN_BIT);
        proof {
            assert(r / HIDDEN_BIT == e && r % HIDDEN_BIT == m - HIDDEN_BIT);
            assert(magnitude(r) == m * pow2((e - 1) as nat));
            // the difference is below one half, so the tent keeps it
            lemma_pow2_pos(125);
            assert(2 * (rest * pow2(125)) < unit()) by (nonlinear_arith)
                requires
                    unit() == HIDDEN_BIT * (2 * pow2(125)),
                    rest < HIDDEN_BIT,
                    pow2(125) > 0,
            ;
            assert(scaled(w) < unit()) by {
                lemma_magnitude_increases(w, ONE);
            }
        }
        r
    }
}

/// The weight is the same at equal distances from the two ends of the
/// range: where two samples between zero and one add up to one, their
/// weights are one number, and one word unless a sample is negative zero.
pub proof fn weight_is_symmetric(z: u32, mirrored: u32, weight: u32, mirrored_weight: u32)
    requires
        !is_nan(z),
        !is_nan(mirrored),
        0 <= scaled(z) <= unit(),
        scaled(z) + scaled(mirrored) == unit(),
        is_weight_of(weight, z),
        is_weight_of(mirrored_weight, mirrored),
    ensures
        weight_value(z) == weight_value(mirrored),
        scaled(weight) == scaled(mirrored_weight),
        z != SIGN_BIT && mirrored != SIGN_BIT ==> weight == mirrored_weight,
{
    if z != SIGN_BIT && mirrored != SIGN_BIT {
        lemma_value_determines_word(weight, mirrored_weight);
    }
}

/// Below the range the weight is that of zero, above it that of one, and
/// both are zero; one half has the largest weight, one half.
pub proof fn weight_outside_and_at_the_ends(z: u32, weight: u32)
    requires
        !is_nan(z),
        is_weight_of(weight, z),
    ensures
        scaled(z) <= 0 ==> weight_value(z) == weight_value(ZERO),
        scaled(z) >= unit() ==> weight_value(z) == weight_value(ONE),
        weight_value(ZERO) == 0,
        weight_value(ONE) == 0,
        weight_value(HALF) == scaled(HALF),
        0 <= scaled(weight) <= scaled(HALF),
        scaled(z) <= 0 || scaled(z) >= unit() ==> scaled(weight) == 0,
        z == HALF ==> weight == HALF,
{
    lemma_half_and_one();
    lemma_pow2_pos(126);
    if z == HALF {
        lemma_value_determines_word(weight, HALF);
    }
}

} // verus!
