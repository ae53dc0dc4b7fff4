//! Between counts and binary values: a count as the nearest value of the
//! format, and a value cut to its whole part.
use vstd::prelude::*;
use vstd::arithmetic::div_mod::{
    lemma_div_denominator, lemma_div_multiples_vanish_quotient, lemma_fundamental_div_mod_converse,
};
use vstd::arithmetic::power2::{
    pow2, lemma2_to64, lemma2_to64_rest, lemma_pow2_adds, lemma_pow2_pos,
    lemma_pow2_strictly_increases, lemma_pow2_unfold,
};
use crate::binary32::{
    is_finite, is_nan, is_negative, magnitude, scaled, unit, lemma_value_determines_word,
    HIDDEN_BIT, ZERO,
};

verus! {

/// The first count that a mantissa of 24 bits cannot hold.
pub const MANTISSA_END: u64 = 0x100_0000;

/// One is 2^149 steps of 2^-149.
pub proof fn lemma_unit_is_power()
    ensures
        unit() == pow2(149),
        HIDDEN_BIT == pow2(23),
        MANTISSA_END == pow2(24),
{
    lemma2_to64();
    lemma_pow2_adds(23, 126);
}

/// The whole part of a word's value. A NaN and a negative word have none.
pub open spec fn whole_part(w: u32) -> nat {
    if is_nan(w) || is_negative(w) {
        0
    } else {
        magnitude(w) / (unit() as nat)
    }
}

/// The whole part of a word's value, as far as 64 bits hold it.
pub open spec fn truncate_spec(w: u32) -> u64 {
    if whole_part(w) > u64::MAX {
        u64::MAX
    } else {
        whole_part(w) as u64
    }
}

/// How many low bits of a count a mantissa of 24 bits has no room for.
pub open spec fn lost_bits(n: nat) -> nat
    decreases n,
{
    if n < MANTISSA_END {
        0
    } else {
        1 + lost_bits(n / 2)
    }
}

/// The count rounded to what the format can hold: the nearest multiple of
/// the step at the count's size, and of two equally near the one with the
/// even mantissa.
pub open spec fn rounded_count(n: nat) -> nat {
    let step = pow2(lost_bits(n));
    let q = n / step;
    let rest = n % step;
    if 2 * rest < step || (2 * rest == step && q % 2 == 0) {
        q * step
    } else {
        (q + 1) * step
    }
}

/// Whether `r` is the count `n` as a word: the positive, finite word whose
/// value is the rounded count.
pub open spec fn is_count_word(r: u32, n: u64) -> bool {
    &&& !is_negative(r)
    &&& is_finite(r)
    &&& scaled(r) == rounded_count(n as nat) * unit()
}

/// The count `n` as a word.
pub open spec fn from_count_spec(n: u64) -> u32 {
    choose|r: u32| is_count_word(r, n)
}

/// A count has one word.
pub proof fn lemma_count_word_is_unique(r: u32, n: u64)
    requires
        is_count_word(r, n),
    ensures
        r == from_count_spec(n),
{
    lemma_value_determines_word(r, from_count_spec(n));
}

/// A count below 2^24 is held exactly.
pub proof fn lemma_small_count_is_exact(n: nat)
    requires
        n < MANTISSA_END,
    ensures
        rounded_count(n) == n,
{
    lemma2_to64();
    assert(lost_bits(n) == 0);
    assert(pow2(0) == 1);
}

/// The rounded count is a multiple of the step at the count's size, within
/// half a step of the count.
pub proof fn rounded_count_is_near(n: nat)
    ensures
        2 * rounded_count(n) <= 2 * n + pow2(lost_bits(n)),
        2 * n <= 2 * rounded_count(n) + pow2(lost_bits(n)),
        rounded_count(n) % pow2(lost_bits(n)) == 0,
{
    let step = pow2(lost_bits(n));
    lemma_pow2_pos(lost_bits(n));
    let q = n / step;
    let rest = n % step;
    assert(n == q * step + rest) by {
        vstd::arithmetic::div_mod::lemma_fundamental_div_mod(n as int, step as int);
        assert(step * q == q * step) by (nonlinear_arith);
    }
    assert((q + 1) * step == q * step + step) by (nonlinear_arith);
    assert(((q * step) as int) % (step as int) == 0) by {
        vstd::arithmetic::div_mod::lemma_mod_multiples_basic(q as int, step as int);
    }
    assert((((q + 1) * step) as int) % (step as int) == 0) by {
        vstd::arithmetic::div_mod::lemma_mod_multiples_basic((q + 1) as int, step as int);
    }
}

/// The word of a count that the format holds exactly has the count as its
/// whole part: such a count comes back from its word.
pub proof fn count_comes_back(n: u64, word: u32)
    requires
        rounded_count(n as nat) == n,
        is_count_word(word, n),
    ensures
        truncate_spec(word) == n,
{
    lemma_unit_is_power();
    lemma_pow2_pos(149);
    vstd::arithmetic::div_mod::lemma_div_by_multiple(n as int, unit());
}

/// Cuts a value to its whole part, as a conversion to an unsigned integer
/// does: zero for a NaN and for a negative value, the largest integer for
/// a value beyond it.
#[verifier::when_used_as_spec(truncate_spec)]
pub fn truncate(w: u32) -> (r: u64)
    ensures
        r == truncate_spec(w),
{
    if is_nan(w) || is_negative(w) {
        return 0;
    }
    let e: u32 = w / HIDDEN_BIT;
    let f: u32 = w % HIDDEN_BIT;
    proof {
        lemma_unit_is_power();
        lemma2_to64();
        lemma2_to64_rest();
    }
    if e < 127 {
        proof {
            if e > 0 {
                let p = pow2((e - 1) as nat);
                if e - 1 < 125 {
                    lemma_pow2_strictly_increases((e - 1) as nat, 125);
                }
                lemma_pow2_adds(24, 125);
                lemma_pow2_pos((e - 1) as nat);
                assert((HIDDEN_BIT + f) * p < pow2(24) * pow2(125)) by (nonlinear_arith)
                    requires
                        HIDDEN_BIT + f < pow2(24),
                        0 < p <= pow2(125),
                ;
            } else {
                lemma_pow2_strictly_increases(23, 149);
            }
            assert(magnitude(w) < unit());
            vstd::arithmetic::div_mod::lemma_basic_div(magnitude(w) as int, unit());
        }
        return 0;
    }
    let m: u64 = (HIDDEN_BIT + f) as u64;
    if e >= 150 {
        let ghost up = (e - 150) as nat;
        proof {
            // the value is m * 2^(e - 150), a whole number
            lemma_pow2_adds(up, 149);
            assert(magnitude(w) == (m * pow2(up)) * pow2(149)) by (nonlinear_arith)
                requires
                    magnitude(w) == m * pow2((e - 1) as nat),
                    pow2((e - 1) as nat) == pow2(up) * pow2(149),
            ;
            lemma_pow2_pos(149);
            vstd::arithmetic::div_mod::lemma_div_by_multiple((m * pow2(up)) as int, pow2(149) as int);
            assert(whole_part(w) == m * pow2(up));
        }
        if e >= 191 {
            proof {
                if up > 41 {
                    lemma_pow2_strictly_increases(41, up);
                }
                lemma_pow2_adds(23, 41);
                assert(m * pow2(up) >= pow2(23) * pow2(41)) by (nonlinear_arith)
                    requires
                        m >= pow2(23),
                        pow2(up) >= pow2(41),
                ;
            }
            return u64::MAX;
        }
        let mut q: u64 = m;
        let mut k: u32 = 150;
        proof {
            assert(m * pow2(0) == m) by (nonlinear_arith)
                requires
                    pow2(0) == 1,
            ;
        }
        while k < e
            invariant
                150 <= k <= e < 191,
                m < MANTISSA_END,
                q == m * pow2((k - 150) as nat),
            decreases e - k,
        {
            proof {
                let j = (k - 150) as nat;
                lemma_pow2_unfold(j + 1);
                lemma2_to64();
                lemma2_to64_rest();
                if j < 39 {
                    lemma_pow2_strictly_increases(j, 39);
                }
                assert(m * pow2(j) < 0x100_0000 * 0x80_0000_0000) by (nonlinear_arith)
                    requires
                        m < 0x100_0000,
                        pow2(j) <= 0x80_0000_0000,
                ;
                assert(m * pow2(j + 1) == 2 * (m * pow2(j))) by (nonlinear_arith)
                    requires
                        pow2(j + 1) == 2 * pow2(j),
                ;
            }
            q = q * 2;
            k = k + 1;
        }
        q
    } else {
        let ghost down = (150 - e) as nat;
        proof {
            // the value is m / 2^(150 - e)
            lemma_pow2_adds((e - 1) as nat, down);
            let a = pow2((e - 1) as nat);
            let b = pow2(down);
            lemma_pow2_pos((e - 1) as nat);
            lemma_pow2_pos(down);
            lemma_div_multiples_vanish_quotient(a as int, m as int, b as int);
            assert(m * a == a * m) by (nonlinear_arith);
            assert(whole_part(w) == m as int / b as int);
        }
        let mut q: u64 = m;
        let mut k: u32 = 150;
        proof {
            assert(pow2(0) == 1);
            assert(m as int / 1 == m);
        }
        while k > e
            invariant
                127 <= e <= k <= 150,
                q == m as int / pow2((150 - k) as nat) as int,
            decreases k - e,
        {
            proof {
                let j = (150 - k) as nat;
                lemma_pow2_unfold(j + 1);
                lemma_pow2_pos(j);
                lemma_div_denominator(m as int, pow2(j) as int, 2);
                assert(pow2(j) * 2 == pow2(j + 1));
            }
            q = q / 2;
            k = k - 1;
        }
        q
    }
}

/// A count as a value of the format: exact below 2^24, above it the nearest
/// value, and of two equally near the one with the even mantissa.
#[verifier::when_used_as_spec(from_count_spec)]
pub fn from_count(n: u64) -> (r: u32)
    ensures
        is_count_word(r, n),
        r == from_count_spec(n),
{
    let r = count_bits(n);
    proof {
        lemma_count_word_is_unique(r, n);
    }
    r
}

fn count_bits(n: u64) -> (r: u32)
    ensures
        is_count_word(r, n),
{
    proof {
        lemma_unit_is_power();
        lemma2_to64();
        lemma2_to64_rest();
    }
    if n == 0 {
        proof {
            lemma_small_count_is_exact(0);
            assert(0 * unit() == 0) by (nonlinear_arith);
        }
        return ZERO;
    }
    if n < MANTISSA_END {
        let mut m: u32 = n as u32;
        let mut e: u32 = 150;
        proof {
            lemma_small_count_is_exact(n as nat);
            assert(n * pow2(0) == m) by (nonlinear_arith)
                requires
                    pow2(0) == 1,
                    n == m,
            ;
        }
        while m < HIDDEN_BIT
            invariant
                1 <= n < MANTISSA_END,
                1 <= e <= 150,
                1 <= m < 2 * HIDDEN_BIT,
                n * pow2((150 - e) as nat) == m,
                m * pow2((e - 1) as nat) == n * pow2(149),
            decreases e,
        {
            proof {
                let k = (150 - e) as nat;
                lemma_pow2_unfold(k + 1);
                assert(n * pow2(k + 1) == 2 * m) by (nonlinear_arith)
                    requires
                        n * pow2(k) == m,
                        pow2(k + 1) == 2 * pow2(k),
                ;
                if e == 1 {
                    lemma2_to64();
                    lemma_pow2_strictly_increases(24, 149);
                    assert(n * pow2(149) >= 0x100_0000) by (nonlinear_arith)
                        requires
                            n >= 1,
                            pow2(149) >= 0x100_0000,
                    ;
                    assert(m * pow2(0) == m) by (nonlinear_arith)
                        requires
                            pow2(0) == 1,
                    ;
                    assert(false);
                }
                lemma_pow2_unfold((e - 1) as nat);
                assert((2 * m) * pow2((e - 2) as nat) == n * pow2(149)) by (nonlinear_arith)
                    requires
                        m * pow2((e - 1) as nat) == n * pow2(149),
                        pow2((e - 1) as nat) == 2 * pow2((e - 2) as nat),
                ;
            }
            m = m * 2;
            e = e - 1;
        }
        let r: u32 = e * HIDDEN_BIT + (m - HIDDEN_BIT);
        proof {
            assert(r / HIDDEN_BIT == e && r % HIDDEN_BIT == m - HIDDEN_BIT);
            assert(magnitude(r) == m * pow2((e - 1) as nat));
        }
        return r;
    }
    // drop low bits until 24 are left, keeping what was dropped
    let mut q: u64 = n;
    let mut step: u64 = 1;
    let mut rest: u64 = 0;
    let mut s: u32 = 0;
    proof {
        assert(q * step + rest == n) by (nonlinear_arith)
            requires
                q == n,
                step == 1,
                rest == 0,
        ;
    }
    while q >= MANTISSA_END
        invariant
            n >= MANTISSA_END,
            q * step + rest == n,
            0 <= rest < step,
            step == pow2(s as nat),
            s <= 40,
            q >= HIDDEN_BIT,
            lost_bits(n as nat) == s + lost_bits(q as nat),
        decreases q,
    {
        proof {
            // the step stays below 2^40, or the count would not fit
            assert(step < 0x100_0000_0000) by (nonlinear_arith)
                requires
                    q >= 0x100_0000,
                    q * step + rest == n,
                    rest >= 0,
                    n <= 0xffff_ffff_ffff_ffff,
            ;
            if s >= 40 {
                if s > 40 {
                    lemma_pow2_strictly_increases(40, s as nat);
                }
                lemma2_to64_rest();
                assert(false);
            }
            lemma_pow2_unfold((s + 1) as nat);
            assert((q % 2) * step <= step) by (nonlinear_arith)
                requires
                    0 <= q % 2 <= 1,
                    step >= 0,
            ;
            assert((q / 2) * (2 * step) + (rest + (q % 2) * step) == q * step + rest)
                by (nonlinear_arith)
                requires
                    q == 2 * (q / 2) + q % 2,
            ;
        }
        rest = rest + (q % 2) * step;
        q = q / 2;
        step = step * 2;
        s = s + 1;
    }
    let up: bool = 2 * rest > step || (2 * rest == step && q % 2 == 1);
    let m: u32 = if up {
        (q + 1) as u32
    } else {
        q as u32
    };
    let e: u32 = 150 + s;
    let r: u32 = e * HIDDEN_BIT + (m - HIDDEN_BIT);
    proof {
        let g = pow2(s as nat);
        assert(lost_bits(q as nat) == 0);
        assert(lost_bits(n as nat) == s);
        lemma_pow2_pos(s as nat);
        assert(step * q == q * step) by (nonlinear_arith);
        lemma_fundamental_div_mod_converse(n as int, step as int, q as int, rest as int);
        assert(rounded_count(n as nat) == m * g);
        // the word's value is m * 2^(e - 1), carry or no carry
        lemma_pow2_adds(s as nat, 149);
        if m == MANTISSA_END {
            assert(r / HIDDEN_BIT == e + 1 && r % HIDDEN_BIT == 0);
            lemma_pow2_unfold(e as nat);
            assert(HIDDEN_BIT * pow2(e as nat) == m * pow2((e - 1) as nat)) by (nonlinear_arith)
                requires
                    pow2(e as nat) == 2 * pow2((e - 1) as nat),
                    m == 2 * HIDDEN_BIT,
            ;
        } else {
            assert(r / HIDDEN_BIT == e && r % HIDDEN_BIT == m - HIDDEN_BIT);
        }
        assert(magnitude(r) == m * pow2((e - 1) as nat));
        assert(m * pow2((e - 1) as nat) == (m * g) * unit()) by (nonlinear_arith)
            requires
                pow2((e - 1) as nat) == g * pow2(149),
                unit() == pow2(149),
        ;
    }
    r
}

} // verus!
