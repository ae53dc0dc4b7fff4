use imaging_engine::arithmetic::Primitive;
use imaging_engine::buffer::ImageBuffer;
use imaging_engine::error::EngineError;
use imaging_engine::pipeline::{
    process_image, run_pipeline, Exposure, Operation, OperationDescriptor, ToneCurve,
};

/// The arithmetic of the hardware, in single precision.
fn unit(p: Primitive, a: u32, b: u32) -> u32 {
    let x = f32::from_bits(a);
    let y = f32::from_bits(b);
    match p {
        Primitive::Add => (x + y).to_bits(),
        Primitive::Sub => (x - y).to_bits(),
        Primitive::Mul => (x * y).to_bits(),
        Primitive::Div => (x / y).to_bits(),
        Primitive::Sqrt => x.sqrt().to_bits(),
        Primitive::Atan => x.atan().to_bits(),
        Primitive::Exp2 => 2.0f32.powf(x).to_bits(),
    }
}

fn buffer_of(width: u32, height: u32, samples: &[f32]) -> ImageBuffer {
    let mut b = ImageBuffer::new(width, height).unwrap();
    for y in 0..height {
        for x in 0..width {
            let at = 4 * (y * width + x) as usize;
            let px = [
                samples[at].to_bits(),
                samples[at + 1].to_bits(),
                samples[at + 2].to_bits(),
                samples[at + 3].to_bits(),
            ];
            b.write_pixel(x, y, px).unwrap();
        }
    }
    b
}

fn samples_of(b: &ImageBuffer) -> Vec<f32> {
    b.pixels().iter().map(|&w| f32::from_bits(w)).collect()
}

fn exposure(ev: f32) -> Operation {
    Operation::Exposure(Exposure { ev: ev.to_bits() })
}

fn tone_curve(lut: &[f32]) -> Operation {
    Operation::ToneCurve(ToneCurve { lut: lut.iter().map(|v| v.to_bits()).collect() })
}

fn describe(kind: &str, params: &[f32]) -> OperationDescriptor {
    OperationDescriptor { kind: kind.to_string(), params: params.iter().map(|v| v.to_bits()).collect() }
}

#[test]
fn exposure_of_one_stop_doubles_colour_and_keeps_alpha() {
    let mut b = buffer_of(2, 1, &[0.25, 0.5, 1.0, 0.75, 0.0, -1.5, 3.0, 0.25]);
    Exposure { ev: 1.0f32.to_bits() }.apply(&mut b, &unit);
    assert_eq!(samples_of(&b), vec![0.5, 1.0, 2.0, 0.75, 0.0, -3.0, 6.0, 0.25]);
}

#[test]
fn exposure_of_minus_two_stops_quarters_colour() {
    let mut b = buffer_of(1, 1, &[1.0, 2.0, 4.0, 1.0]);
    assert_eq!(run_pipeline(&mut b, &[exposure(-2.0)], &unit), Ok(()));
    assert_eq!(samples_of(&b), vec![0.25, 0.5, 1.0, 1.0]);
}

#[test]
fn exposure_there_and_back_restores_the_buffer() {
    let before = [0.1f32, 0.2, 0.3, 0.4, 0.9, 1.7, 0.05, 1.0, 0.0, 0.5, 0.33, 0.123];
    for &ev in &[0.5f32, 1.0, 1.3, -2.7, 3.0] {
        let mut b = buffer_of(3, 1, &before);
        assert_eq!(run_pipeline(&mut b, &[exposure(ev), exposure(-ev)], &unit), Ok(()));
        let after = samples_of(&b);
        for i in 0..before.len() {
            if i % 4 == 3 {
                assert_eq!(after[i].to_bits(), before[i].to_bits());
            } else {
                assert!((after[i] - before[i]).abs() <= 1.0e-6 * before[i].abs().max(1.0));
                // within eight steps of the format
                assert!((after[i] - before[i]).abs() as f64 * 1048576.0 <= before[i].abs() as f64);
            }
        }
    }
}

#[test]
fn identity_tone_curve_leaves_colour_within_tolerance() {
    for &n in &[2usize, 3, 17, 256, 4096] {
        let lut: Vec<f32> = (0..n).map(|i| i as f32 / (n - 1) as f32).collect();
        let before = [0.0f32, 0.1, 0.25, 0.3, 0.5, 0.77, 0.999, 0.6, 1.0, 0.333, 0.01, 0.2];
        let mut b = buffer_of(3, 1, &before);
        assert_eq!(run_pipeline(&mut b, &[tone_curve(&lut)], &unit), Ok(()));
        let after = samples_of(&b);
        let tolerance = 1.0 / (n - 1) as f32;
        for i in 0..before.len() {
            if i % 4 == 3 {
                assert_eq!(after[i].to_bits(), before[i].to_bits());
            } else {
                assert!((after[i] - before[i]).abs() <= tolerance);
                assert!((after[i] - before[i]).abs() <= 1.0e-6);
            }
        }
    }
}

#[test]
fn tone_curve_interpolates_between_entries() {
    let curve = ToneCurve { lut: vec![0.0f32.to_bits(), 1.0f32.to_bits(), 4.0f32.to_bits()] };
    assert!(curve.is_valid());
    let mut b = buffer_of(2, 1, &[0.75, 0.25, 0.5, 0.75, 0.0, 0.125, 0.875, 9.0]);
    assert_eq!(curve.apply(&mut b, &unit), Ok(()));
    // positions 1.5, 0.5, 1.0 and 0.0, 0.25, 1.75 in a table of 0, 1, 4
    assert_eq!(samples_of(&b), vec![2.5, 0.5, 1.0, 0.75, 0.0, 0.25, 3.25, 9.0]);
}

#[test]
fn tone_curve_clamps_at_the_top_edge_and_outside_the_range() {
    let mut b = buffer_of(2, 1, &[1.0, 7.0, -3.0, 2.0, f32::INFINITY, f32::NAN, -0.0, -1.0]);
    assert_eq!(run_pipeline(&mut b, &[tone_curve(&[0.5, 1.0, 4.0])], &unit), Ok(()));
    assert_eq!(samples_of(&b), vec![4.0, 4.0, 0.5, 2.0, 4.0, 0.5, 0.5, -1.0]);
}

#[test]
fn tone_curve_of_two_entries() {
    let mut b = buffer_of(1, 1, &[0.25, 1.0, 0.0, 0.5]);
    assert_eq!(run_pipeline(&mut b, &[tone_curve(&[2.0, 4.0])], &unit), Ok(()));
    assert_eq!(samples_of(&b), vec![2.5, 4.0, 2.0, 0.5]);
}

#[test]
fn tone_curve_follows_the_written_formula() {
    let lut: Vec<f32> = vec![0.0, 0.02, 0.09, 0.2, 0.38, 0.61, 0.85, 1.0];
    let before = [0.37f32, 0.91, 0.05, 1.0];
    let mut b = buffer_of(1, 1, &before);
    assert_eq!(run_pipeline(&mut b, &[tone_curve(&lut)], &unit), Ok(()));
    let after = samples_of(&b);
    for c in 0..3 {
        let clamped = before[c].max(0.0).min(1.0);
        let idx_f = clamped * (lut.len() - 1) as f32;
        let idx = idx_f as usize;
        let fract = idx_f - idx as f32;
        let v1 = lut[idx];
        let v2 = if idx + 1 < lut.len() { lut[idx + 1] } else { v1 };
        assert_eq!(after[c].to_bits(), (v1 * (1.0 - fract) + v2 * fract).to_bits());
    }
    assert_eq!(after[3], 1.0);
}

#[test]
fn operations_run_in_the_given_order() {
    let table = [0.0f32, 0.25, 1.0];
    let mut first = buffer_of(1, 1, &[0.25, 0.5, 0.125, 1.0]);
    assert_eq!(run_pipeline(&mut first, &[exposure(1.0), tone_curve(&table)], &unit), Ok(()));
    // doubled to 0.5, 1.0, 0.25, then through the table
    assert_eq!(samples_of(&first), vec![0.25, 1.0, 0.125, 1.0]);
    let mut second = buffer_of(1, 1, &[0.25, 0.5, 0.125, 1.0]);
    assert_eq!(run_pipeline(&mut second, &[tone_curve(&table), exposure(1.0)], &unit), Ok(()));
    // through the table to 0.125, 0.25, 0.0625, then doubled
    assert_eq!(samples_of(&second), vec![0.25, 0.5, 0.125, 1.0]);
}

#[test]
fn a_single_operation_checks_itself() {
    let mut b = buffer_of(1, 1, &[0.25, 0.5, 0.125, 1.0]);
    let short = ToneCurve { lut: vec![0.5f32.to_bits()] };
    assert_eq!(short.apply(&mut b, &unit), Err(EngineError::MalformedPipelineDescriptor));
    assert_eq!(tone_curve(&[]).apply(&mut b, &unit), Err(EngineError::MalformedPipelineDescriptor));
    assert_eq!(samples_of(&b), vec![0.25, 0.5, 0.125, 1.0]);
    assert_eq!(exposure(1.0).apply(&mut b, &unit), Ok(()));
    assert_eq!(samples_of(&b), vec![0.5, 1.0, 0.25, 1.0]);
    assert_eq!(tone_curve(&[0.0, 2.0]).apply(&mut b, &unit), Ok(()));
    assert_eq!(samples_of(&b), vec![1.0, 2.0, 0.5, 1.0]);
}

#[test]
fn empty_pipeline_changes_nothing() {
    let mut b = buffer_of(1, 1, &[0.25, 0.5, 0.125, 1.0]);
    assert_eq!(run_pipeline(&mut b, &[], &unit), Ok(()));
    assert_eq!(process_image(&mut b, &[], &unit), Ok(()));
    assert_eq!(samples_of(&b), vec![0.25, 0.5, 0.125, 1.0]);
}

#[test]
fn malformed_operation_fails_before_anything_changes() {
    let before = [0.25f32, 0.5, 0.125, 1.0];
    for bad in [tone_curve(&[]), tone_curve(&[0.5])] {
        assert!(!bad.is_valid());
        let mut b = buffer_of(1, 1, &before);
        let ops = [exposure(1.0), tone_curve(&[0.0, 1.0]), bad];
        assert_eq!(run_pipeline(&mut b, &ops, &unit), Err(EngineError::MalformedPipelineDescriptor));
        assert_eq!(samples_of(&b), before.to_vec());
    }
    assert!(exposure(0.5).is_valid());
    assert!(tone_curve(&[0.0, 1.0]).is_valid());
}

#[test]
fn descriptors_name_operations() {
    let mut b = buffer_of(1, 1, &[0.25, 0.5, 0.125, 1.0]);
    let pipeline = [describe("Exposure", &[1.0]), describe("ToneCurve", &[0.0, 0.25, 1.0])];
    assert!(pipeline[0].is_well_formed());
    assert!(pipeline[1].is_well_formed());
    assert_eq!(process_image(&mut b, &pipeline, &unit), Ok(()));
    assert_eq!(samples_of(&b), vec![0.25, 1.0, 0.125, 1.0]);
}

#[test]
fn unknown_kind_is_malformed() {
    let before = [0.25f32, 0.5, 0.125, 1.0];
    for kind in ["Blur", "", "exposure", "Exposure ", "ToneCurves"] {
        let mut b = buffer_of(1, 1, &before);
        let pipeline = [describe("Exposure", &[1.0]), describe(kind, &[1.0, 2.0])];
        assert!(!pipeline[1].is_well_formed());
        assert_eq!(
            process_image(&mut b, &pipeline, &unit),
            Err(EngineError::MalformedPipelineDescriptor)
        );
        assert_eq!(samples_of(&b), before.to_vec());
    }
}

#[test]
fn missing_or_surplus_parameters_are_malformed() {
    let before = [0.25f32, 0.5, 0.125, 1.0];
    let bad = [
        describe("Exposure", &[]),
        describe("Exposure", &[1.0, 2.0]),
        describe("ToneCurve", &[]),
        describe("ToneCurve", &[0.5]),
    ];
    for d in bad {
        assert!(!d.is_well_formed());
        let mut b = buffer_of(1, 1, &before);
        let pipeline = [describe("ToneCurve", &[0.0, 0.5]), d];
        assert_eq!(
            process_image(&mut b, &pipeline, &unit),
            Err(EngineError::MalformedPipelineDescriptor)
        );
        assert_eq!(samples_of(&b), before.to_vec());
    }
}

#[test]
fn pipeline_keeps_size_and_alpha() {
    let before: Vec<f32> = (0..48).map(|i| i as f32 / 47.0).collect();
    let mut b = buffer_of(4, 3, &before);
    let ops = [exposure(0.7), tone_curve(&[0.1, 0.4, 0.3, 0.9]), exposure(-1.1)];
    assert_eq!(run_pipeline(&mut b, &ops, &unit), Ok(()));
    assert_eq!(b.width(), 4);
    assert_eq!(b.height(), 3);
    let after = samples_of(&b);
    assert_eq!(after.len(), 48);
    for i in (3..48).step_by(4) {
        assert_eq!(after[i].to_bits(), before[i].to_bits());
    }
}

#[test]
fn equal_samples_get_equal_results() {
    let mut b = buffer_of(2, 1, &[0.3, 0.3, 0.6, 0.3, 0.6, 0.3, 0.3, 0.6]);
    let ops = [tone_curve(&[0.0, 0.2, 0.9, 1.0]), exposure(0.25)];
    assert_eq!(run_pipeline(&mut b, &ops, &unit), Ok(()));
    let s = b.pixels();
    assert_eq!(s[0], s[1]);
    assert_eq!(s[0], s[5]);
    assert_eq!(s[0], s[6]);
    assert_eq!(s[2], s[4]);
    assert_ne!(s[0], s[2]);
}
