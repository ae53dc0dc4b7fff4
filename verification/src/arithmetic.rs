//! The rounding arithmetic that the engine asks of its caller.
//!
//! The engine decides on bit patterns what can be decided there. Sums,
//! products, quotients, roots, arc tangents and powers round, and are
//! computed by an arithmetic unit: a function from a primitive and two words
//! to a word, handed in by the caller. The engine's contracts say which
//! primitives are applied to which words, in which order.
use vstd::prelude::*;

verus! {

/// What an arithmetic unit can be asked for. The primitives of one operand
/// take it first and ignore the second.
#[derive(Clone, Copy, Debug, PartialEq, Eq, Structural)]
pub enum Primitive {
    /// The first operand plus the second.
    Add,
    /// The first operand minus the second.
    Sub,
    /// The first operand times the second.
    Mul,
    /// The first operand divided by the second.
    Div,
    /// The square root of the operand.
    Sqrt,
    /// The arc tangent of the operand, in radians.
    Atan,
    /// Two to the power of the operand.
    Exp2,
}

/// A unit is settled when it accepts every request and answers each request
/// in one way only.
pub open spec fn is_settled<F: Fn(Primitive, u32, u32) -> u32>(math: &F) -> bool {
    &&& forall|p: Primitive, a: u32, b: u32| call_requires(*math, (p, a, b))
    &&& forall|p: Primitive, a: u32, b: u32, r: u32, s: u32|
        call_ensures(*math, (p, a, b), r) && call_ensures(*math, (p, a, b), s) ==> r == s
}

/// The answer of a settled unit to a request.
pub open spec fn outcome<F: Fn(Primitive, u32, u32) -> u32>(
    math: &F,
    p: Primitive,
    a: u32,
    b: u32,
) -> u32 {
    choose|r: u32| call_ensures(*math, (p, a, b), r)
}

/// The unit's answer for `a + b`.
pub open spec fn sum<F: Fn(Primitive, u32, u32) -> u32>(math: &F, a: u32, b: u32) -> u32 {
    outcome(math, Primitive::Add, a, b)
}

/// The unit's answer for `a - b`.
pub open spec fn difference<F: Fn(Primitive, u32, u32) -> u32>(math: &F, a: u32, b: u32) -> u32 {
    outcome(math, Primitive::Sub, a, b)
}

/// The unit's answer for `a * b`.
pub open spec fn product<F: Fn(Primitive, u32, u32) -> u32>(math: &F, a: u32, b: u32) -> u32 {
    outcome(math, Primitive::Mul, a, b)
}

/// The unit's answer for `a / b`.
pub open spec fn quotient<F: Fn(Primitive, u32, u32) -> u32>(math: &F, a: u32, b: u32) -> u32 {
    outcome(math, Primitive::Div, a, b)
}

/// The unit's answer for the square root of `a`.
pub open spec fn square_root<F: Fn(Primitive, u32, u32) -> u32>(math: &F, a: u32) -> u32 {
    outcome(math, Primitive::Sqrt, a, 0)
}

/// The unit's answer for the arc tangent of `a`.
pub open spec fn arc_tangent<F: Fn(Primitive, u32, u32) -> u32>(math: &F, a: u32) -> u32 {
    outcome(math, Primitive::Atan, a, 0)
}

/// The unit's answer for two to the power of `a`.
pub open spec fn power_of_two<F: Fn(Primitive, u32, u32) -> u32>(math: &F, a: u32) -> u32 {
    outcome(math, Primitive::Exp2, a, 0)
}

/// Puts a request to the unit. What comes back is the unit's answer to
/// that request, here and wherever a contract speaks of it.
pub fn ask<F: Fn(Primitive, u32, u32) -> u32>(math: &F, p: Primitive, a: u32, b: u32) -> (r: u32)
    requires
        is_settled(math),
    ensures
        r == outcome(math, p, a, b),
{
    math(p, a, b)
}

} // verus!
