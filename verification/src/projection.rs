//! Panorama projections: from a ray in front of the camera to a point of
//! the image plane.
use vstd::prelude::*;
use crate::arithmetic::{
    arc_tangent, ask, is_settled, product, quotient, square_root, sum, Primitive,
};
use crate::binary32::{abs, is_finite, is_zero, ZERO};
use crate::error::EngineError;

verus! {

/// The model by which rays are laid out on the plane.
#[derive(Clone, Copy, Debug, PartialEq, Eq, Structural)]
pub enum ProjectionType {
    /// A flat sensor: straight lines stay straight.
    Rectilinear,
    /// A cylinder around the vertical axis: vertical lines stay straight.
    Cylindrical,
    /// A sphere: longitude and latitude.
    Spherical,
}

/// The root of `x*x + z*z`, taken as it stands.
pub open spec fn plain_root<F: Fn(Primitive, u32, u32) -> u32>(math: &F, x: u32, z: u32) -> u32 {
    square_root(math, sum(math, product(math, x, x), product(math, z, z)))
}

/// The larger of two words, signs aside.
pub open spec fn larger_magnitude(x: u32, z: u32) -> u32 {
    if abs(x) >= abs(z) {
        abs(x)
    } else {
        abs(z)
    }
}

/// The root of `x*x + z*z`, taken after both were divided by the larger of
/// them, and multiplied by it again: `m * sqrt((x/m)*(x/m) + (z/m)*(z/m))`.
/// One of the two quotients is the larger word divided by its own
/// magnitude.
pub open spec fn scaled_root<F: Fn(Primitive, u32, u32) -> u32>(math: &F, x: u32, z: u32) -> u32 {
    let m = larger_magnitude(x, z);
    product(math, m, plain_root(math, quotient(math, x, m), quotient(math, z, m)))
}

/// The distance of a ray from the vertical axis: the root of `x*x + z*z`.
/// Where the squares are too small or too large for the plain root to be a
/// number other than zero, the scaled root stands for it.
pub open spec fn axis_distance<F: Fn(Primitive, u32, u32) -> u32>(math: &F, x: u32, z: u32) -> u32 {
    let d = plain_root(math, x, z);
    if is_zero(d) || !is_finite(d) {
        scaled_root(math, x, z)
    } else {
        d
    }
}

/// The angle of a ray round the vertical axis, scaled by the focal length:
/// `f * atan(x / z)`.
pub open spec fn longitude<F: Fn(Primitive, u32, u32) -> u32>(
    math: &F,
    x: u32,
    z: u32,
    f: u32,
) -> u32 {
    product(math, f, arc_tangent(math, quotient(math, x, z)))
}

/// Where a ray off the optical axis meets the plane at focal length `f`.
///
/// Rectilinear: `(f*x/z, f*y/z)`. Cylindrical: `(f*atan(x/z), f*y/d)`.
/// Spherical: `(f*atan(x/z), f*atan(y/d))`, with `d` the distance from the
/// vertical axis.
pub open spec fn projected<F: Fn(Primitive, u32, u32) -> u32>(
    math: &F,
    x: u32,
    y: u32,
    z: u32,
    f: u32,
    p_type: ProjectionType,
) -> (u32, u32) {
    match p_type {
        ProjectionType::Rectilinear => (
            quotient(math, product(math, f, x), z),
            quotient(math, product(math, f, y), z),
        ),
        ProjectionType::Cylindrical => (
            longitude(math, x, z, f),
            quotient(math, product(math, f, y), axis_distance(math, x, z)),
        ),
        ProjectionType::Spherical => (
            longitude(math, x, z, f),
            product(math, f, arc_tangent(math, quotient(math, y, axis_distance(math, x, z)))),
        ),
    }
}

/// What the projection of the ray (`x`, `y`, `z`) gives: nothing for a ray
/// without depth, the origin for a ray along the optical axis, and else the
/// point that the model's formulas give.
pub open spec fn projection<F: Fn(Primitive, u32, u32) -> u32>(
    math: &F,
    x: u32,
    y: u32,
    z: u32,
    f: u32,
    p_type: ProjectionType,
) -> Result<(u32, u32), EngineError> {
    if is_zero(z) {
        Err(EngineError::DegenerateProjection)
    } else if is_zero(x) && is_zero(y) {
        Ok((ZERO, ZERO))
    } else {
        Ok(projected(math, x, y, z, f, p_type))
    }
}

/// Every model maps the optical axis to the origin, at every depth other
/// than zero and every focal length.
pub proof fn optical_axis_maps_to_origin<F: Fn(Primitive, u32, u32) -> u32>(
    math: &F,
    x: u32,
    y: u32,
    z: u32,
    f: u32,
    p_type: ProjectionType,
)
    requires
        is_zero(x),
        is_zero(y),
        !is_zero(z),
    ensures
        projection(math, x, y, z, f, p_type) == Ok::<(u32, u32), EngineError>((ZERO, ZERO)),
{
}

/// Maps the ray (`x`, `y`, `z`) to the plane at focal length `f`.
///
/// Fails with `DegenerateProjection` when `z` is zero, of either sign: such
/// a ray has no depth to divide by. A ray along the optical axis, with `x`
/// and `y` zero, maps to the origin without any arithmetic.
pub fn project_pixel<F: Fn(Primitive, u32, u32) -> u32>(
    x: u32,
    y: u32,
    z: u32,
    f: u32,
    p_type: ProjectionType,
    math: &F,
) -> (r: Result<(u32, u32), EngineError>)
    requires
        is_settled(math),
    ensures
        r == projection(math, x, y, z, f, p_type),
        r == if is_zero(z) {
            Err::<(u32, u32), EngineError>(EngineError::DegenerateProjection)
        } else if is_zero(x) && is_zero(y) {
            Ok::<(u32, u32), EngineError>((ZERO, ZERO))
        } else {
            Ok::<(u32, u32), EngineError>(projected(math, x, y, z, f, p_type))
        },
{
    if is_zero(z) {
        return Err(EngineError::DegenerateProjection);
    }
    if is_zero(x) && is_zero(y) {
        return Ok((ZERO, ZERO));
    }
    match p_type {
        ProjectionType::Rectilinear => {
            let u = ask(math, Primitive::Div, ask(math, Primitive::Mul, f, x), z);
            let v = ask(math, Primitive::Div, ask(math, Primitive::Mul, f, y), z);
            Ok((u, v))
        },
        ProjectionType::Cylindrical => {
            let d = distance_from_axis(x, z, math);
            let u = scaled_angle(x, z, f, math);
            let v = ask(math, Primitive::Div, ask(math, Primitive::Mul, f, y), d);
            Ok((u, v))
        },
        ProjectionType::Spherical => {
            let d = distance_from_axis(x, z, math);
            let u = scaled_angle(x, z, f, math);
            let slope = ask(math, Primitive::Div, y, d);
            let v = ask(math, Primitive::Mul, f, ask(math, Primitive::Atan, slope, 0));
            Ok((u, v))
        },
    }
}

fn root_of_squares<F: Fn(Primitive, u32, u32) -> u32>(x: u32, z: u32, math: &F) -> (r: u32)
    requires
        is_settled(math),
    ensures
        r == plain_root(math, x, z),
{
    let xx = ask(math, Primitive::Mul, x, x);
    let zz = ask(math, Primitive::Mul, z, z);
    ask(math, Primitive::Sqrt, ask(math, Primitive::Add, xx, zz), 0)
}

fn distance_from_axis<F: Fn(Primitive, u32, u32) -> u32>(x: u32, z: u32, math: &F) -> (r: u32)
    requires
        is_settled(math),
    ensures
        r == axis_distance(math, x, z),
{
    let d = root_of_squares(x, z, math);
    if is_zero(d) || !is_finite(d) {
        let m = if abs(x) >= abs(z) {
            abs(x)
        } else {
            abs(z)
        };
        let a = ask(math, Primitive::Div, x, m);
        let b = ask(math, Primitive::Div, z, m);
        ask(math, Primitive::Mul, m, root_of_squares(a, b, math))
    } else {
        d
    }
}

fn scaled_angle<F: Fn(Primitive, u32, u32) -> u32>(x: u32, z: u32, f: u32, math: &F) -> (r: u32)
    requires
        is_settled(math),
    ensures
        r == longitude(math, x, z, f),
{
    let ratio = ask(math, Primitive::Div, x, z);
    ask(math, Primitive::Mul, f, ask(math, Primitive::Atan, ratio, 0))
}

} // verus!
