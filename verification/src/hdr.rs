//! Fusion of bracketed exposures into one buffer of radiance.
use vstd::prelude::*;
use crate::arithmetic::{ask, is_settled, power_of_two, product, quotient, sum, Primitive};
use crate::binary32::{
    abs, is_finite, is_zero, lemma_half_and_one, lemma_magnitude_order, lemma_magnitude_positive,
    scaled, unit, HALF, SIGN_BIT, ZERO,
};
use crate::buffer::{is_alpha, ImageBuffer};
use crate::count::{
    from_count, is_count_word, lemma_count_word_is_unique, lemma_small_count_is_exact,
};
use crate::error::EngineError;
use crate::rounding::{
    adds_exactly, divides_closely, is_normal, is_within, lemma_within_chain, lemma_within_scales,
    multiplies_closely, FOUR_STEP_PARTS, STEP_PARTS,
};
use crate::weight::{compute_weight, is_weight_of, lemma_weight_is_unique, weight_word};

verus! {

/// One exposure of a bracket: a buffer and the stops by which it was
/// exposed above the reference.
pub struct Frame<'a> {
    pub buffer: &'a ImageBuffer,
    pub ev: u32,
}

/// The sums that fusion keeps for one colour sample.
pub ghost struct Sums {
    /// The radiances, each times its weight.
    pub weighted: u32,
    /// The weights.
    pub weights: u32,
    /// The radiances.
    pub radiances: u32,
}

/// The light that a sample stands for: the sample divided by two to the
/// power of its exposure's stops.
pub open spec fn radiance<F: Fn(Primitive, u32, u32) -> u32>(math: &F, z: u32, ev: u32) -> u32 {
    quotient(math, z, power_of_two(math, ev))
}

/// The sums over the readings of one colour sample, each a sample and its
/// exposure's stops, added in the order of the exposures from zero.
pub open spec fn sums<F: Fn(Primitive, u32, u32) -> u32>(math: &F, readings: Seq<(u32, u32)>) -> Sums
    decreases readings.len(),
{
    if readings.len() == 0 {
        Sums { weighted: ZERO, weights: ZERO, radiances: ZERO }
    } else {
        let before = sums(math, readings.drop_last());
        let (z, ev) = readings.last();
        let w = weight_word(z);
        let r = radiance(math, z, ev);
        Sums {
            weighted: sum(math, before.weighted, product(math, w, r)),
            weights: sum(math, before.weights, w),
            radiances: sum(math, before.radiances, r),
        }
    }
}

/// The fused colour sample: the mean of the radiances by weight, or, where
/// no reading has any weight, their plain mean.
pub open spec fn fused<F: Fn(Primitive, u32, u32) -> u32>(math: &F, readings: Seq<(u32, u32)>) -> u32 {
    let total = sums(math, readings);
    if is_zero(total.weights) {
        quotient(math, total.radiances, from_count(readings.len() as u64))
    } else {
        quotient(math, total.weighted, total.weights)
    }
}

/// What the exposures hold at one position of the storage.
pub open spec fn readings(frames: Seq<Frame>, i: int) -> Seq<(u32, u32)> {
    Seq::new(frames.len(), |k: int| (frames[k].buffer@[i], frames[k].ev))
}

/// Whether there is an exposure and all are of one size.
pub open spec fn same_size(frames: Seq<Frame>) -> bool {
    &&& frames.len() > 0
    &&& forall|k: int|
        0 <= k < frames.len() ==> {
            &&& (#[trigger] frames[k]).buffer.width() == frames[0].buffer.width()
            &&& frames[k].buffer.height() == frames[0].buffer.height()
        }
}

/// The samples of the fused buffer: alpha as in the first exposure, every
/// colour sample fused from the exposures' samples at its position.
pub open spec fn merged<F: Fn(Primitive, u32, u32) -> u32>(math: &F, frames: Seq<Frame>) -> Seq<u32> {
    Seq::new(
        frames[0].buffer@.len(),
        |i: int|
            if is_alpha(i) {
                frames[0].buffer@[i]
            } else {
                fused(math, readings(frames, i))
            },
    )
}

/// Fuses bracketed exposures.
pub struct HDRMerger {}

impl HDRMerger {
    /// A merger. It keeps nothing between calls.
    pub fn new() -> HDRMerger {
        HDRMerger {  }
    }

    /// Fuses the exposures into a new buffer of their size.
    ///
    /// Fails with `InvalidDimension` when there is no exposure or the
    /// exposures differ in size.
    pub fn merge<F: Fn(Primitive, u32, u32) -> u32>(&self, frames: &[Frame], math: &F) -> (r: Result<
        ImageBuffer,
        EngineError,
    >)
        requires
            is_settled(math),
        ensures
            r is Ok <==> same_size(frames@),
            r is Err ==> r == Err::<ImageBuffer, EngineError>(EngineError::InvalidDimension),
            r is Ok ==> {
                &&& r.unwrap().width() == frames@[0].buffer.width()
                &&& r.unwrap().height() == frames@[0].buffer.height()
                &&& r.unwrap()@ == merged(math, frames@)
            },
    {
        let count = frames.len();
        if count == 0 {
            return Err(EngineError::InvalidDimension);
        }
        let first = frames[0].buffer;
        let width = first.width();
        let height = first.height();
        let n = first.sample_count();
        let mut factors: Vec<u32> = Vec::new();
        let mut k: usize = 0;
        while k < count
            invariant
                is_settled(math),
                k <= count,
                count == frames@.len(),
                width == frames@[0].buffer.width(),
                height == frames@[0].buffer.height(),
                n == 4 * (width * height),
                factors@.len() == k,
                forall|j: int|
                    0 <= j < k ==> {
                        &&& (#[trigger] frames@[j]).buffer.width() == width
                        &&& frames@[j].buffer.height() == height
                        &&& frames@[j].buffer@.len() == n
                        &&& factors@[j] == power_of_two(math, frames@[j].ev)
                    },
            decreases count - k,
        {
            let buffer = frames[k].buffer;
            if buffer.width() != width || buffer.height() != height {
                return Err(EngineError::InvalidDimension);
            }
            // a buffer of the same sides has the same number of samples
            let size = buffer.sample_count();
            assert(size == n);
            factors.push(ask(math, Primitive::Exp2, frames[k].ev, 0));
            k += 1;
        }
        // the first exposure is of this size, so a buffer of this size can be made
        let mut out = match ImageBuffer::new(width, height) {
            Ok(out) => out,
            Err(e) => {
                return Err(e);
            },
        };
        let divisor = from_count(count as u64);
        let mut i: usize = 0;
        while i < n
            invariant
                is_settled(math),
                i <= n,
                0 < count,
                count == frames@.len(),
                n == out@.len(),
                out.width() == width,
                out.height() == height,
                divisor == from_count(count as u64),
                factors@.len() == count,
                forall|j: int|
                    0 <= j < count ==> {
                        &&& (#[trigger] frames@[j]).buffer@.len() == n
                        &&& factors@[j] == power_of_two(math, frames@[j].ev)
                    },
                forall|j: int| 0 <= j < i ==> out@[j] == merged(math, frames@)[j],
            decreases n - i,
        {
            if i % 4 == 3 {
                out.set_sample(i, frames[0].buffer.sample(i));
            } else {
                let ghost column = readings(frames@, i as int);
                let mut weighted = ZERO;
                let mut weights = ZERO;
                let mut radiances = ZERO;
                k = 0;
                while k < count
                    invariant
                        is_settled(math),
                        k <= count,
                        count == frames@.len(),
                        i < n,
                        column == readings(frames@, i as int),
                        factors@.len() == count,
                        forall|j: int|
                            0 <= j < count ==> {
                                &&& (#[trigger] frames@[j]).buffer@.len() == n
                                &&& factors@[j] == power_of_two(math, frames@[j].ev)
                            },
                        sums(math, column.take(k as int)) == (Sums { weighted, weights, radiances }),
                    decreases count - k,
                {
                    assert(column.take(k + 1).drop_last() =~= column.take(k as int));
                    assert(column.take(k + 1).last() == (frames@[k as int].buffer@[i as int], frames@[k as int].ev));
                    let z = frames[k].buffer.sample(i);
                    let w = compute_weight(z);
                    let r = ask(math, Primitive::Div, z, factors[k]);
                    let wr = ask(math, Primitive::Mul, w, r);
                    weighted = ask(math, Primitive::Add, weighted, wr);
                    weights = ask(math, Primitive::Add, weights, w);
                    radiances = ask(math, Primitive::Add, radiances, r);
                    k += 1;
                }
                assert(column.take(count as int) =~= column);
                let value = if is_zero(weights) {
                    ask(math, Primitive::Div, radiances, divisor)
                } else {
                    ask(math, Primitive::Div, weighted, weights)
                };
                out.set_sample(i, value);
            }
            i += 1;
        }
        assert(out@ =~= merged(math, frames@));
        Ok(out)
    }
}

/// A number added to zero and then to itself is twice the number, with a
/// unit that adds to zero and doubles without error.
proof fn lemma_twice<F: Fn(Primitive, u32, u32) -> u32>(math: &F, a: u32)
    requires
        adds_exactly(math),
        is_finite(a),
        is_finite(sum(math, a, a)),
    ensures
        is_finite(sum(math, sum(math, ZERO, a), a)),
        scaled(sum(math, sum(math, ZERO, a), a)) == 2 * scaled(a),
{
    lemma_magnitude_positive(a);
    if a == SIGN_BIT {
        assert(sum(math, ZERO, a) == ZERO);
        lemma_magnitude_positive(ZERO);
    } else {
        assert(sum(math, ZERO, a) == a);
    }
}

/// Two exposures that hold the same sample at the same stops fuse to the
/// radiance of that sample, within four steps of the format.
///
/// This holds of a unit that adds to zero and doubles without error and
/// whose products and quotients are within a step of the exact ones, for a
/// finite sample whose radiance, and the numbers on the way to the fused
/// sample, are finite and of full precision.
pub proof fn identical_exposures_fuse_to_their_radiance<F: Fn(Primitive, u32, u32) -> u32>(
    math: &F,
    z: u32,
    ev: u32,
    weight: u32,
    two: u32,
)
    requires
        adds_exactly(math),
        multiplies_closely(math),
        divides_closely(math),
        is_finite(z),
        is_weight_of(weight, z),
        is_count_word(two, 2),
        is_normal(radiance(math, z, ev)),
        is_finite(sum(math, radiance(math, z, ev), radiance(math, z, ev))),
        is_finite(sum(math, weight, weight)),
        !is_zero(weight) ==> {
            let p = product(math, weight, radiance(math, z, ev));
            is_normal(p) && is_finite(sum(math, p, p))
        },
        is_normal(fused(math, seq![(z, ev), (z, ev)])),
    ensures
        is_within(
            scaled(fused(math, seq![(z, ev), (z, ev)])),
            scaled(radiance(math, z, ev)),
            FOUR_STEP_PARTS as int,
        ),
{
    let both = seq![(z, ev), (z, ev)];
    let one = seq![(z, ev)];
    let r = radiance(math, z, ev);
    let w = weight;
    let p = product(math, w, r);
    lemma_weight_is_unique(w, z);
    // the weight is at most one half, so it is finite
    lemma_half_and_one();
    lemma_magnitude_positive(w);
    lemma_magnitude_order(abs(w), HALF);
    assert(is_finite(w));
    // the sums over the two readings
    assert(both.drop_last() =~= one);
    assert(one.drop_last() =~= Seq::<(u32, u32)>::empty());
    assert(both.last() == (z, ev));
    assert(one.last() == (z, ev));
    reveal_with_fuel(sums, 3);
    let total = sums(math, both);
    assert(total.weights == sum(math, sum(math, ZERO, w), w));
    assert(total.radiances == sum(math, sum(math, ZERO, r), r));
    assert(total.weighted == sum(math, sum(math, ZERO, p), p));
    lemma_twice(math, w);
    lemma_twice(math, r);
    lemma_magnitude_positive(total.weights);
    let q = fused(math, both);
    let sq = scaled(q);
    let sr = scaled(r);
    let sw = scaled(w);
    if is_zero(total.weights) {
        lemma_count_word_is_unique(two, 2);
        lemma_small_count_is_exact(2);
        lemma_magnitude_positive(two);
        assert(scaled(two) == 2 * unit());
        assert(unit() > 0) by {
            vstd::arithmetic::power2::lemma_pow2_pos(126);
            assert(unit() > 0) by (nonlinear_arith)
                requires
                    unit() == 0x80_0000 * vstd::arithmetic::power2::pow2(126),
                    vstd::arithmetic::power2::pow2(126) > 0,
            ;
        }
        assert(q == quotient(math, total.radiances, two));
        assert(is_within(sq * scaled(two), scaled(total.radiances) * unit(), STEP_PARTS as int));
        let m = 2 * unit();
        assert(sq * scaled(two) == sq * m);
        assert(scaled(total.radiances) * unit() == sr * m) by (nonlinear_arith)
            requires
                scaled(total.radiances) == 2 * sr,
                m == 2 * unit(),
        ;
        lemma_within_scales(sq, sr, m, STEP_PARTS as int);
    } else {
        assert(sw > 0);
        lemma_twice(math, p);
        assert(q == quotient(math, total.weighted, total.weights));
        let sp = scaled(p);
        let a = sq * sw;
        let b = sp * unit();
        let c = sr * sw;
        assert(is_within(
            sq * scaled(total.weights),
            scaled(total.weighted) * unit(),
            STEP_PARTS as int,
        ));
        assert(sq * scaled(total.weights) == 2 * a) by (nonlinear_arith)
            requires
                scaled(total.weights) == 2 * sw,
                a == sq * sw,
        ;
        assert(scaled(total.weighted) * unit() == 2 * b) by (nonlinear_arith)
            requires
                scaled(total.weighted) == 2 * sp,
                b == sp * unit(),
        ;
        assert(is_within(a, b, STEP_PARTS as int));
        assert(is_within(b, sw * sr, STEP_PARTS as int));
        assert(sw * sr == c) by (nonlinear_arith)
            requires
                c == sr * sw,
        ;
        lemma_within_chain(a, b, c);
        lemma_within_scales(sq, sr, sw, FOUR_STEP_PARTS as int);
    }
}

} // verus!
