//! How near the answers of an arithmetic unit come to exact arithmetic.
//!
//! The engine's contracts say which requests are put to the unit. What the
//! results are worth as numbers depends on how well the unit rounds. This
//! module names what rounding to a value of the format gives, so that laws
//! on tolerances can be stated for every unit that gives as much.
use vstd::prelude::*;
use crate::arithmetic::{product, quotient, sum, Primitive};
use crate::binary32::{abs, is_finite, is_zero, scaled, unit, HIDDEN_BIT, INFINITY, SIGN_BIT, ZERO};

verus! {

/// One part in 2^23: the step between neighbouring values of the format,
/// relative to their size, is no larger.
pub const STEP_PARTS: u32 = 0x80_0000;

/// One part in 2^21: four steps.
pub const FOUR_STEP_PARTS: u32 = 0x20_0000;

/// One part in 2^20: eight steps.
pub const EIGHT_STEP_PARTS: u32 = 0x10_0000;

/// The size of a number, sign aside.
pub open spec fn size_of(b: int) -> int {
    if b < 0 {
        -b
    } else {
        b
    }
}

/// Whether `a` is within one part in `parts` of `b`: the distance between
/// them, taken `parts` times, is no more than the size of `b`.
pub open spec fn is_within(a: int, b: int, parts: int) -> bool {
    (a - b) * parts <= size_of(b) && (b - a) * parts <= size_of(b)
}

/// Whether the word is a number of full precision: finite, and not below
/// the smallest value with a leading one.
pub open spec fn is_normal(w: u32) -> bool {
    HIDDEN_BIT <= abs(w) < INFINITY
}

/// Whether the unit's products are within a step of the exact product,
/// where they are numbers of full precision.
pub open spec fn multiplies_closely<F: Fn(Primitive, u32, u32) -> u32>(math: &F) -> bool {
    forall|a: u32, b: u32|
        is_finite(a) && is_finite(b) && is_normal(#[trigger] product(math, a, b)) ==> is_within(
            scaled(product(math, a, b)) * unit(),
            scaled(a) * scaled(b),
            STEP_PARTS as int,
        )
}

/// Whether the unit's quotients are within a step of the exact quotient,
/// where they are numbers of full precision.
pub open spec fn divides_closely<F: Fn(Primitive, u32, u32) -> u32>(math: &F) -> bool {
    forall|a: u32, b: u32|
        is_finite(a) && is_finite(b) && !is_zero(b) && is_normal(#[trigger] quotient(math, a, b))
            ==> is_within(
            scaled(quotient(math, a, b)) * scaled(b),
            scaled(a) * unit(),
            STEP_PARTS as int,
        )
}

/// Whether the unit adds to zero and doubles without error: zero plus a
/// number is that number, with positive zero for negative zero, and a
/// number plus itself is twice the number where that is finite.
pub open spec fn adds_exactly<F: Fn(Primitive, u32, u32) -> u32>(math: &F) -> bool {
    &&& forall|a: u32|
        is_finite(a) ==> #[trigger] sum(math, ZERO, a) == (if a == SIGN_BIT {
            ZERO
        } else {
            a
        })
    &&& forall|a: u32|
        is_finite(a) && is_finite(#[trigger] sum(math, a, a)) ==> scaled(sum(math, a, a)) == 2
            * scaled(a)
}

/// Two numbers that are near each other stay so when both are divided by
/// one positive number.
pub proof fn lemma_within_scales(x: int, y: int, m: int, parts: int)
    requires
        m > 0,
        parts > 0,
        is_within(x * m, y * m, parts),
    ensures
        is_within(x, y, parts),
{
    let size = if y < 0 {
        -y
    } else {
        y
    };
    assert((if y * m < 0 {
        -(y * m)
    } else {
        y * m
    }) == size * m) by (nonlinear_arith)
        requires
            m > 0,
            size == if y < 0 {
                -y
            } else {
                y
            },
    ;
    assert((x - y) * parts <= size) by (nonlinear_arith)
        requires
            m > 0,
            (x * m - y * m) * parts <= size * m,
    ;
    assert((y - x) * parts <= size) by (nonlinear_arith)
        requires
            m > 0,
            (y * m - x * m) * parts <= size * m,
    ;
}

/// Within a step of what is within a step is within four steps.
pub proof fn lemma_within_chain(a: int, b: int, c: int)
    requires
        is_within(a, b, STEP_PARTS as int),
        is_within(b, c, STEP_PARTS as int),
    ensures
        is_within(a, c, FOUR_STEP_PARTS as int),
{
    let p = STEP_PARTS as int;
    let q = FOUR_STEP_PARTS as int;
    let sb = size_of(b);
    let sc = size_of(c);
    assert((a - c) * q <= sc && (c - a) * q <= sc) by (nonlinear_arith)
        requires
            p == 0x80_0000,
            q == 0x20_0000,
            (a - b) * p <= sb,
            (b - a) * p <= sb,
            (b - c) * p <= sc,
            (c - b) * p <= sc,
            sb == (if b < 0 {
                -b
            } else {
                b
            }),
            sc == (if c < 0 {
                -c
            } else {
                c
            }),
    ;
}

/// Two numbers that are near each other stay so when both are multiplied
/// by one number.
pub proof fn lemma_within_multiplied(x: int, y: int, m: int, parts: int)
    requires
        parts > 0,
        is_within(x, y, parts),
    ensures
        is_within(x * m, y * m, parts),
{
    let size = if y < 0 {
        -y
    } else {
        y
    };
    let factor = if m < 0 {
        -m
    } else {
        m
    };
    assert((if y * m < 0 {
        -(y * m)
    } else {
        y * m
    }) == size * factor) by (nonlinear_arith)
        requires
            size == if y < 0 {
                -y
            } else {
                y
            },
            factor == if m < 0 {
                -m
            } else {
                m
            },
    ;
    assert((x * m - y * m) * parts <= size * factor && (y * m - x * m) * parts <= size * factor)
        by (nonlinear_arith)
        requires
            (x - y) * parts <= size,
            (y - x) * parts <= size,
            factor == if m < 0 {
                -m
            } else {
                m
            },
            factor >= 0,
    ;
}

/// Within a step of what is within a step of what is within four steps is
/// within eight steps.
pub proof fn lemma_within_long_chain(a: int, b: int, c: int, d: int)
    requires
        is_within(a, b, STEP_PARTS as int),
        is_within(b, c, STEP_PARTS as int),
        is_within(c, d, FOUR_STEP_PARTS as int),
    ensures
        is_within(a, d, EIGHT_STEP_PARTS as int),
{
    let p = STEP_PARTS as int;
    let q = FOUR_STEP_PARTS as int;
    let e = EIGHT_STEP_PARTS as int;
    let sb = size_of(b);
    let sc = size_of(c);
    let sd = size_of(d);
    assert((a - d) * e <= sd && (d - a) * e <= sd) by (nonlinear_arith)
        requires
            p == 0x80_0000,
            q == 0x20_0000,
            e == 0x10_0000,
            (a - b) * p <= sb,
            (b - a) * p <= sb,
            (b - c) * p <= sc,
            (c - b) * p <= sc,
            (c - d) * q <= sd,
            (d - c) * q <= sd,
            sb == (if b < 0 {
                -b
            } else {
                b
            }),
            sc == (if c < 0 {
                -c
            } else {
                c
            }),
            sd == (if d < 0 {
                -d
            } else {
                d
            }),
    ;
}

} // verus!
