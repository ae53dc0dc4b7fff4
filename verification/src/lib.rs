//! A computational imaging core: exposure fusion weights, panorama
//! projections, homography estimation and an ordered pipeline of pixel
//! adjustments over an in-memory RGBA buffer.
//!
//! Samples are 32-bit IEEE 754 binary values carried as their bit patterns.
//! What can be decided on the pattern is computed here and proved against
//! the value that the pattern stands for: sign, zero, clamping, the fusion
//! weight, and the conversions between counts and values. Arithmetic that
//! rounds is asked of an arithmetic unit that the caller hands in; the
//! contracts then say which requests are put to the unit, and in which
//! order. Laws on tolerances are stated for every unit that rounds as well
//! as the format allows.
pub mod arithmetic;
pub mod binary32;
pub mod buffer;
pub mod count;
pub mod error;
pub mod hdr;
pub mod homography;
pub mod pipeline;
pub mod projection;
pub mod rounding;
pub mod weight;
