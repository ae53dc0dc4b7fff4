use imaging_engine::arithmetic::Primitive;
use imaging_engine::error::EngineError;
use imaging_engine::projection::{project_pixel, ProjectionType};

/// The arithmetic of the hardware, in single precision.
fn unit(p: Primitive, a: u32, b: u32) -> u32 {
    let x = f32::from_bits(a);
    let y = f32::from_bits(b);
    match p {
        Primitive::Add => (x + y).to_bits(),
        Primitive::Sub => (x - y).to_bits(),
        Primitive::Mul => (x * y).to_bits(),
        Primitive::Div => (x / y).to_bits(),
        Primitive::Sqrt => x.sqrt().to_bits(),
        Primitive::Atan => x.atan().to_bits(),
        Primitive::Exp2 => 2.0f32.powf(x).to_bits(),
    }
}

fn project(x: f32, y: f32, z: f32, f: f32, p_type: ProjectionType) -> Result<(f32, f32), EngineError> {
    project_pixel(x.to_bits(), y.to_bits(), z.to_bits(), f.to_bits(), p_type, &unit)
        .map(|(u, v)| (f32::from_bits(u), f32::from_bits(v)))
}

const ALL: [ProjectionType; 3] =
    [ProjectionType::Rectilinear, ProjectionType::Cylindrical, ProjectionType::Spherical];

#[test]
fn optical_axis_maps_to_the_origin() {
    for p_type in ALL {
        for &z in &[1.0e-20f32, 0.5, 1.0, 3.0, 1.0e6] {
            for &f in &[0.1f32, 1.0, 35.0, 1.0e4] {
                assert_eq!(project(0.0, 0.0, z, f, p_type), Ok((0.0, 0.0)));
            }
        }
    }
}

#[test]
fn ray_without_depth_is_degenerate() {
    assert_eq!(
        project(1.0, 2.0, 0.0, 1.0, ProjectionType::Rectilinear),
        Err(EngineError::DegenerateProjection)
    );
    for p_type in ALL {
        assert_eq!(project(1.0, 2.0, 0.0, 1.0, p_type), Err(EngineError::DegenerateProjection));
        assert_eq!(project(0.0, 0.0, -0.0, 50.0, p_type), Err(EngineError::DegenerateProjection));
        assert!(project(1.0, 2.0, 1.0e-45, 1.0, p_type).is_ok());
    }
}

#[test]
fn cylindrical_diagonal_ray() {
    let (u, v) = project(1.0, 0.0, 1.0, 1.0, ProjectionType::Cylindrical).unwrap();
    assert!((u - 0.7854).abs() < 1.0e-4);
    assert!((u - std::f32::consts::FRAC_PI_4).abs() < 1.0e-6);
    assert_eq!(u, 1.0f32.atan());
    assert_eq!(v, 0.0);
}

#[test]
fn rectilinear_divides_by_depth() {
    assert_eq!(project(1.0, 2.0, 4.0, 2.0, ProjectionType::Rectilinear), Ok((0.5, 1.0)));
    assert_eq!(project(-3.0, 1.5, 2.0, 10.0, ProjectionType::Rectilinear), Ok((-15.0, 7.5)));
    assert_eq!(project(1.0, 1.0, -2.0, 1.0, ProjectionType::Rectilinear), Ok((-0.5, -0.5)));
}

#[test]
fn cylindrical_keeps_height_over_distance() {
    let (u, v) = project(3.0, 10.0, 4.0, 2.0, ProjectionType::Cylindrical).unwrap();
    assert_eq!(u, 2.0 * (3.0f32 / 4.0).atan());
    assert_eq!(v, 2.0 * 10.0 / 5.0);
}

#[test]
fn spherical_takes_both_angles() {
    let (u, v) = project(3.0, 5.0, 4.0, 2.0, ProjectionType::Spherical).unwrap();
    assert_eq!(u, 2.0 * (3.0f32 / 4.0).atan());
    assert_eq!(v, 2.0 * (5.0f32 / 5.0).atan());
    assert!((v - std::f32::consts::FRAC_PI_2).abs() < 1.0e-6);
}

#[test]
fn projections_follow_the_written_formulas() {
    let rays = [(0.3f32, -0.7f32, 1.9f32, 24.0f32), (-2.0, 0.1, 0.4, 1.5), (5.0, 5.0, 5.0, 0.5)];
    for &(x, y, z, f) in &rays {
        let hypot = (x * x + z * z).sqrt();
        assert_eq!(project(x, y, z, f, ProjectionType::Rectilinear), Ok((f * x / z, f * y / z)));
        assert_eq!(
            project(x, y, z, f, ProjectionType::Cylindrical),
            Ok((f * (x / z).atan(), f * y / hypot))
        );
        assert_eq!(
            project(x, y, z, f, ProjectionType::Spherical),
            Ok((f * (x / z).atan(), f * (y / hypot).atan()))
        );
    }
}

#[test]
fn projections_agree_near_the_axis() {
    let (x, y, z, f) = (1.0e-3f32, -2.0e-3f32, 1.0f32, 10.0f32);
    let flat = project(x, y, z, f, ProjectionType::Rectilinear).unwrap();
    for p_type in ALL {
        let (u, v) = project(x, y, z, f, p_type).unwrap();
        assert!((u - flat.0).abs() < 1.0e-6);
        assert!((v - flat.1).abs() < 1.0e-6);
    }
}

#[test]
fn optical_axis_maps_to_the_origin_at_every_depth() {
    // the squares of the small depths are below the smallest value of the
    // format, those of the large ones above the largest
    let depths = [1.0e-45f32, 1.0e-30, 7.9e-31, 1.0e-20, 1.0, 1.0e20, 3.0e38, f32::MAX];
    for p_type in ALL {
        for &z in &depths {
            for &f in &[1.0e-45f32, 1.0, 35.0, 3.0e38] {
                let r = project_pixel(0, 0, z.to_bits(), f.to_bits(), p_type, &unit);
                assert_eq!(r, Ok((0, 0)));
                assert_eq!(project(-0.0, 0.0, z, f, p_type), Ok((0.0, 0.0)));
                assert_eq!(project(0.0, -0.0, -z, f, p_type), Ok((0.0, 0.0)));
            }
        }
    }
    assert_eq!(project(0.0, 0.0, 2.0f32.powi(-100), 1.0, ProjectionType::Cylindrical), Ok((0.0, 0.0)));
    assert_eq!(project(0.0, 0.0, 2.0f32.powi(-100), 1.0, ProjectionType::Spherical), Ok((0.0, 0.0)));
}

#[test]
fn a_distance_whose_square_vanishes_is_still_a_distance() {
    // x and z of 3e-30 and 4e-30: the squares vanish, the distance is 5e-30
    let (x, y, z, f) = (3.0e-30f32, 1.0e-30f32, 4.0e-30f32, 2.0f32);
    let m = 4.0e-30f32;
    let (a, b) = (x / m, z / m);
    let d = m * (a * a + b * b).sqrt();
    assert!((d / 5.0e-30 - 1.0).abs() < 1.0e-6);
    let (u, v) = project(x, y, z, f, ProjectionType::Cylindrical).unwrap();
    assert_eq!(u, f * (x / z).atan());
    assert_eq!(v, f * y / d);
    assert!((v - 0.4).abs() < 1.0e-6);
    let (_, w) = project(x, y, z, f, ProjectionType::Spherical).unwrap();
    assert_eq!(w, f * (y / d).atan());
    assert!((w - 2.0 * 0.2f32.atan()).abs() < 1.0e-6);
    // a ray off the axis by its height alone
    let (u, v) = project(0.0, 1.0, 1.0e-30, 1.0, ProjectionType::Cylindrical).unwrap();
    assert_eq!(u, 0.0);
    assert!((v / 1.0e30 - 1.0).abs() < 1.0e-6);
}

#[test]
fn a_distance_whose_square_is_too_large_is_still_a_distance() {
    let (x, y, z, f) = (-3.0e30f32, 1.0e30f32, 4.0e30f32, 2.0f32);
    let m = 4.0e30f32;
    let (a, b) = (x / m, z / m);
    let d = m * (a * a + b * b).sqrt();
    assert!((d / 5.0e30 - 1.0).abs() < 1.0e-6);
    let (u, v) = project(x, y, z, f, ProjectionType::Cylindrical).unwrap();
    assert_eq!(u, f * (x / z).atan());
    assert_eq!(v, f * y / d);
    assert!((v - 0.4).abs() < 1.0e-6);
}
