//! Adjustments of a buffer, one after the other.
//!
//! A pipeline is checked as a whole before its first operation runs: a
//! pipeline with a malformed operation leaves the buffer as it was. Every
//! operation changes the red, green and blue samples and keeps alpha.
use vstd::prelude::*;
use crate::arithmetic::{ask, difference, is_settled, power_of_two, product, sum, Primitive};
use crate::binary32::{clamp_unit, is_finite, negate_spec, scaled, unit, ONE};
use crate::rounding::{
    is_normal, is_within, lemma_within_long_chain, lemma_within_multiplied, lemma_within_scales,
    multiplies_closely, EIGHT_STEP_PARTS, FOUR_STEP_PARTS, STEP_PARTS,
};
use crate::count::{from_count, truncate};
use crate::buffer::{is_alpha, ImageBuffer};
use crate::error::EngineError;

verus! {

/// A change of exposure by `ev` stops: every colour sample is multiplied by
/// two to the power of `ev`.
pub struct Exposure {
    pub ev: u32,
}

/// A response curve, sampled at equal steps over the range from zero to
/// one. It has at least two entries.
pub struct ToneCurve {
    pub lut: Vec<u32>,
}

/// One step of a pipeline.
pub enum Operation {
    Exposure(Exposure),
    ToneCurve(ToneCurve),
}

/// What an operation is, apart from how it is stored.
pub ghost enum OperationModel {
    Exposure { ev: u32 },
    ToneCurve { lut: Seq<u32> },
}

/// An operation as a host describes it: the name of its kind and its
/// parameters. `Exposure` takes one parameter, the stops; `ToneCurve` takes
/// the entries of its table.
pub struct OperationDescriptor {
    pub kind: String,
    pub params: Vec<u32>,
}

/// Whether a table can serve as a tone curve.
pub open spec fn is_table(lut: Seq<u32>) -> bool {
    lut.len() >= 2
}

/// A colour sample after a change of exposure.
pub open spec fn exposed_sample<F: Fn(Primitive, u32, u32) -> u32>(math: &F, ev: u32, s: u32) -> u32 {
    product(math, s, power_of_two(math, ev))
}

/// A colour sample after a tone curve. The sample, limited to the range
/// from zero to one, is scaled to a position in the table, from zero to the
/// place of the last entry. The whole part of the position picks the entry
/// below, or the last entry where the position is beyond it; the entry
/// above is the next one, or the last entry again. The result lies between
/// the two, as far along as the position is past the lower entry:
/// `below * (1 - fraction) + above * fraction`.
pub open spec fn toned_sample<F: Fn(Primitive, u32, u32) -> u32>(
    math: &F,
    lut: Seq<u32>,
    s: u32,
) -> u32
    recommends
        is_table(lut),
{
    let last = lut.len() - 1;
    let position = product(math, clamp_unit(s), from_count(last as u64));
    let cut = truncate(position);
    let below = if cut > last {
        last
    } else {
        cut as int
    };
    let above = if below < last {
        below + 1
    } else {
        below
    };
    let fraction = difference(math, position, from_count(below as u64));
    sum(
        math,
        product(math, lut[below], difference(math, ONE, fraction)),
        product(math, lut[above], fraction),
    )
}

impl OperationModel {
    /// Whether the operation's parameters are in range: a tone curve has
    /// a table of at least two entries.
    pub open spec fn is_valid(self) -> bool {
        match self {
            OperationModel::Exposure { ev } => true,
            OperationModel::ToneCurve { lut } => is_table(lut),
        }
    }

    /// A colour sample after the operation.
    pub open spec fn changed_sample<F: Fn(Primitive, u32, u32) -> u32>(self, math: &F, s: u32) -> u32 {
        match self {
            OperationModel::Exposure { ev } => exposed_sample(math, ev, s),
            OperationModel::ToneCurve { lut } => toned_sample(math, lut, s),
        }
    }

    /// The samples of a buffer after the operation: alpha as before, every
    /// colour sample changed by itself.
    pub open spec fn applied<F: Fn(Primitive, u32, u32) -> u32>(
        self,
        math: &F,
        samples: Seq<u32>,
    ) -> Seq<u32> {
        Seq::new(
            samples.len(),
            |i: int|
                if is_alpha(i) {
                    samples[i]
                } else {
                    self.changed_sample(math, samples[i])
                },
        )
    }
}

/// The samples of a buffer after a pipeline: the operations applied from
/// the first to the last.
pub open spec fn applied_all<F: Fn(Primitive, u32, u32) -> u32>(
    math: &F,
    ops: Seq<OperationModel>,
    samples: Seq<u32>,
) -> Seq<u32>
    decreases ops.len(),
{
    if ops.len() == 0 {
        samples
    } else {
        ops.last().applied(math, applied_all(math, ops.drop_last(), samples))
    }
}

/// No pipeline changes the number of samples or any alpha sample.
pub proof fn pipeline_keeps_alpha<F: Fn(Primitive, u32, u32) -> u32>(
    math: &F,
    ops: Seq<OperationModel>,
    samples: Seq<u32>,
)
    ensures
        applied_all(math, ops, samples).len() == samples.len(),
        forall|i: int|
            0 <= i < samples.len() && is_alpha(i) ==> applied_all(math, ops, samples)[i]
                == samples[i],
    decreases ops.len(),
{
    if ops.len() > 0 {
        pipeline_keeps_alpha(math, ops.drop_last(), samples);
    }
}

/// A change of exposure followed by the opposite change leaves every alpha
/// sample exactly as it was.
pub proof fn opposite_exposures_keep_alpha<F: Fn(Primitive, u32, u32) -> u32>(
    math: &F,
    ev: u32,
    samples: Seq<u32>,
)
    ensures
        ({
            let there = OperationModel::Exposure { ev };
            let back = OperationModel::Exposure { ev: negate_spec(ev) };
            let after = back.applied(math, there.applied(math, samples));
            &&& after.len() == samples.len()
            &&& forall|i: int| 0 <= i < samples.len() && is_alpha(i) ==> after[i] == samples[i]
        }),
{
}

/// Whether two to the power of `ev` and two to the power of minus `ev`, as
/// the unit gives them, are finite and multiply to one within four steps.
pub open spec fn powers_are_opposite<F: Fn(Primitive, u32, u32) -> u32>(math: &F, ev: u32) -> bool {
    let up = power_of_two(math, ev);
    let down = power_of_two(math, negate_spec(ev));
    &&& is_finite(up)
    &&& is_finite(down)
    &&& is_within(scaled(up) * scaled(down), unit() * unit(), FOUR_STEP_PARTS as int)
}

/// A change of exposure followed by the opposite change gives a colour
/// sample back within eight steps of the format.
///
/// This holds of a unit whose products are within a step of the exact ones
/// and whose two powers are opposite, for a finite sample that is a number
/// of full precision after each of the two changes.
pub proof fn opposite_exposures_restore_colour<F: Fn(Primitive, u32, u32) -> u32>(
    math: &F,
    ev: u32,
    s: u32,
)
    requires
        multiplies_closely(math),
        powers_are_opposite(math, ev),
        is_finite(s),
        is_normal(exposed_sample(math, ev, s)),
        is_normal(exposed_sample(math, negate_spec(ev), exposed_sample(math, ev, s))),
    ensures
        is_within(
            scaled(exposed_sample(math, negate_spec(ev), exposed_sample(math, ev, s))),
            scaled(s),
            EIGHT_STEP_PARTS as int,
        ),
{
    let up = power_of_two(math, ev);
    let down = power_of_two(math, negate_spec(ev));
    let there = exposed_sample(math, ev, s);
    let back = exposed_sample(math, negate_spec(ev), there);
    let u = unit();
    let (ss, s1, s2, sm, st) = (scaled(s), scaled(up), scaled(down), scaled(there), scaled(back));
    assert(u > 0) by {
        vstd::arithmetic::power2::lemma_pow2_pos(126);
        assert(u > 0) by (nonlinear_arith)
            requires
                u == 0x80_0000 * vstd::arithmetic::power2::pow2(126),
                vstd::arithmetic::power2::pow2(126) > 0,
        ;
    }
    assert(u * u > 0) by (nonlinear_arith)
        requires
            u > 0,
    ;
    // the sample after both changes, the exact product of the sample after
    // the first change, the exact product of the sample, and the sample
    let x = st * (u * u);
    let y = (sm * s2) * u;
    let z = (ss * s1) * s2;
    let w = ss * (u * u);
    assert(is_within(st * u, sm * s2, STEP_PARTS as int));
    lemma_within_multiplied(st * u, sm * s2, u, STEP_PARTS as int);
    assert((st * u) * u == x) by (nonlinear_arith)
        requires
            x == st * (u * u),
    ;
    assert(is_within(sm * u, ss * s1, STEP_PARTS as int));
    lemma_within_multiplied(sm * u, ss * s1, s2, STEP_PARTS as int);
    assert((sm * u) * s2 == y) by (nonlinear_arith)
        requires
            y == (sm * s2) * u,
    ;
    lemma_within_multiplied(s1 * s2, u * u, ss, FOUR_STEP_PARTS as int);
    assert((s1 * s2) * ss == z && (u * u) * ss == w) by (nonlinear_arith)
        requires
            z == (ss * s1) * s2,
            w == ss * (u * u),
    ;
    lemma_within_long_chain(x, y, z, w);
    lemma_within_scales(st, ss, u * u, EIGHT_STEP_PARTS as int);
}

/// A colour sample after a pipeline depends on that sample alone: two
/// buffers that agree at a position agree there after the same pipeline.
pub proof fn pipeline_is_pointwise<F: Fn(Primitive, u32, u32) -> u32>(
    math: &F,
    ops: Seq<OperationModel>,
    a: Seq<u32>,
    b: Seq<u32>,
    i: int,
)
    requires
        0 <= i < a.len(),
        a.len() == b.len(),
        a[i] == b[i],
    ensures
        applied_all(math, ops, a)[i] == applied_all(math, ops, b)[i],
    decreases ops.len(),
{
    if ops.len() > 0 {
        pipeline_is_pointwise(math, ops.drop_last(), a, b, i);
        pipeline_keeps_alpha(math, ops.drop_last(), a);
        pipeline_keeps_alpha(math, ops.drop_last(), b);
    }
}

impl View for Operation {
    type V = OperationModel;

    open spec fn view(&self) -> OperationModel {
        match self {
            Operation::Exposure(e) => OperationModel::Exposure { ev: e.ev },
            Operation::ToneCurve(t) => OperationModel::ToneCurve { lut: t.lut@ },
        }
    }
}

/// The operations of a pipeline, apart from how they are stored.
pub open spec fn models(ops: Seq<Operation>) -> Seq<OperationModel> {
    Seq::new(ops.len(), |k: int| ops[k]@)
}

impl OperationDescriptor {
    /// The operation that the descriptor names, if it names one: its kind
    /// is known and its parameters are as many as the kind takes.
    pub open spec fn meaning(&self) -> Option<OperationModel> {
        if self.kind@ == "Exposure"@ {
            if self.params@.len() == 1 {
                Some(OperationModel::Exposure { ev: self.params@[0] })
            } else {
                None
            }
        } else if self.kind@ == "ToneCurve"@ {
            if is_table(self.params@) {
                Some(OperationModel::ToneCurve { lut: self.params@ })
            } else {
                None
            }
        } else {
            None
        }
    }

    /// Whether the descriptor names an operation.
    pub fn is_well_formed(&self) -> (r: bool)
        ensures
            r == self.meaning().is_some(),
    {
        if self.kind == "Exposure".to_owned() {
            self.params.len() == 1
        } else if self.kind == "ToneCurve".to_owned() {
            self.params.len() >= 2
        } else {
            false
        }
    }
}

/// The operations that a sequence of well-formed descriptors names.
pub open spec fn meanings(descriptors: Seq<OperationDescriptor>) -> Seq<OperationModel> {
    Seq::new(descriptors.len(), |k: int| descriptors[k].meaning().unwrap())
}

/// Multiplies every colour sample by two to the power of `ev`.
fn expose<F: Fn(Primitive, u32, u32) -> u32>(img: &mut ImageBuffer, ev: u32, math: &F)
    requires
        is_settled(math),
    ensures
        final(img)@ == (OperationModel::Exposure { ev }).applied(math, old(img)@),
        final(img).width() == old(img).width(),
        final(img).height() == old(img).height(),
{
    let ghost op = OperationModel::Exposure { ev };
    let n = img.sample_count();
    let factor = ask(math, Primitive::Exp2, ev, 0);
    let mut i: usize = 0;
    while i < n
        invariant
            is_settled(math),
            op == (OperationModel::Exposure { ev }),
            factor == power_of_two(math, ev),
            i <= n,
            n == img@.len(),
            n == old(img)@.len(),
            img.width() == old(img).width(),
            img.height() == old(img).height(),
            forall|j: int| 0 <= j < i ==> img@[j] == op.applied(math, old(img)@)[j],
            forall|j: int| i <= j < n ==> img@[j] == old(img)@[j],
        decreases n - i,
    {
        if i % 4 != 3 {
            let s = img.sample(i);
            let t = ask(math, Primitive::Mul, s, factor);
            img.set_sample(i, t);
        }
        i += 1;
    }
    assert(img@ =~= op.applied(math, old(img)@));
}

/// Sends every colour sample through the tone curve with the table `lut`.
fn tone<F: Fn(Primitive, u32, u32) -> u32>(img: &mut ImageBuffer, lut: &[u32], math: &F)
    requires
        is_settled(math),
        is_table(lut@),
    ensures
        final(img)@ == (OperationModel::ToneCurve { lut: lut@ }).applied(math, old(img)@),
        final(img).width() == old(img).width(),
        final(img).height() == old(img).height(),
{
    let ghost op = OperationModel::ToneCurve { lut: lut@ };
    let n = img.sample_count();
    let last: usize = lut.len() - 1;
    let scale = from_count(last as u64);
    let mut i: usize = 0;
    while i < n
        invariant
            is_settled(math),
            is_table(lut@),
            op == (OperationModel::ToneCurve { lut: lut@ }),
            last == lut@.len() - 1,
            scale == from_count(last as u64),
            i <= n,
            n == img@.len(),
            n == old(img)@.len(),
            img.width() == old(img).width(),
            img.height() == old(img).height(),
            forall|j: int| 0 <= j < i ==> img@[j] == op.applied(math, old(img)@)[j],
            forall|j: int| i <= j < n ==> img@[j] == old(img)@[j],
        decreases n - i,
    {
        if i % 4 != 3 {
            let s = img.sample(i);
            let position = ask(math, Primitive::Mul, clamp_unit(s), scale);
            let cut = truncate(position);
            let below: usize = if cut > last as u64 {
                last
            } else {
                cut as usize
            };
            let above: usize = if below < last {
                below + 1
            } else {
                below
            };
            let fraction = ask(math, Primitive::Sub, position, from_count(below as u64));
            let rest = ask(math, Primitive::Sub, ONE, fraction);
            let low = ask(math, Primitive::Mul, lut[below], rest);
            let high = ask(math, Primitive::Mul, lut[above], fraction);
            let t = ask(math, Primitive::Add, low, high);
            img.set_sample(i, t);
        }
        i += 1;
    }
    assert(img@ =~= op.applied(math, old(img)@));
}

impl Exposure {
    /// Multiplies every colour sample of the buffer by two to the power of
    /// the stops. Alpha stays.
    pub fn apply<F: Fn(Primitive, u32, u32) -> u32>(&self, img: &mut ImageBuffer, math: &F)
        requires
            is_settled(math),
        ensures
            final(img)@ == (OperationModel::Exposure { ev: self.ev }).applied(math, old(img)@),
            final(img).width() == old(img).width(),
            final(img).height() == old(img).height(),
    {
        expose(img, self.ev, math);
    }
}

impl ToneCurve {
    /// Whether the table has at least two entries.
    pub open spec fn is_valid_spec(&self) -> bool {
        is_table(self.lut@)
    }

    /// Whether the table has at least two entries.
    #[verifier::when_used_as_spec(is_valid_spec)]
    pub fn is_valid(&self) -> (r: bool)
        ensures
            r == self.is_valid(),
    {
        self.lut.len() >= 2
    }

    /// Sends every colour sample of the buffer through the curve. Alpha
    /// stays.
    ///
    /// Fails with `MalformedPipelineDescriptor` when the table has fewer
    /// than two entries, and then leaves the buffer as it was.
    pub fn apply<F: Fn(Primitive, u32, u32) -> u32>(&self, img: &mut ImageBuffer, math: &F) -> (r:
        Result<(), EngineError>)
        requires
            is_settled(math),
        ensures
            r is Ok <==> self.is_valid(),
            r is Err ==> r == Err::<(), EngineError>(EngineError::MalformedPipelineDescriptor)
                && final(img)@ == old(img)@,
            r is Ok ==> final(img)@ == (OperationModel::ToneCurve { lut: self.lut@ }).applied(
                math,
                old(img)@,
            ),
            final(img).width() == old(img).width(),
            final(img).height() == old(img).height(),
    {
        if !self.is_valid() {
            return Err(EngineError::MalformedPipelineDescriptor);
        }
        tone(img, self.lut.as_slice(), math);
        Ok(())
    }
}

impl Operation {
    /// Whether the operation's parameters are in range.
    pub fn is_valid(&self) -> (r: bool)
        ensures
            r == self@.is_valid(),
    {
        match self {
            Operation::Exposure(_) => true,
            Operation::ToneCurve(t) => t.is_valid(),
        }
    }

    /// Applies the operation to the buffer.
    ///
    /// Fails with `MalformedPipelineDescriptor` when the operation is not
    /// valid, and then leaves the buffer as it was.
    pub fn apply<F: Fn(Primitive, u32, u32) -> u32>(&self, img: &mut ImageBuffer, math: &F) -> (r:
        Result<(), EngineError>)
        requires
            is_settled(math),
        ensures
            r is Ok <==> self@.is_valid(),
            r is Err ==> r == Err::<(), EngineError>(EngineError::MalformedPipelineDescriptor)
                && final(img)@ == old(img)@,
            r is Ok ==> final(img)@ == self@.applied(math, old(img)@),
            final(img).width() == old(img).width(),
            final(img).height() == old(img).height(),
    {
        match self {
            Operation::Exposure(e) => {
                e.apply(img, math);
                Ok(())
            },
            Operation::ToneCurve(t) => t.apply(img, math),
        }
    }
}

/// Applies the operations to the buffer, from the first to the last.
///
/// Fails with `MalformedPipelineDescriptor` when an operation is not valid,
/// and then leaves the buffer as it was.
pub fn run_pipeline<F: Fn(Primitive, u32, u32) -> u32>(
    img: &mut ImageBuffer,
    ops: &[Operation],
    math: &F,
) -> (r: Result<(), EngineError>)
    requires
        is_settled(math),
    ensures
        r is Ok <==> forall|k: int| 0 <= k < ops@.len() ==> (#[trigger] ops@[k])@.is_valid(),
        r is Err ==> r == Err::<(), EngineError>(EngineError::MalformedPipelineDescriptor)
            && final(img)@ == old(img)@,
        r is Ok ==> final(img)@ == applied_all(math, models(ops@), old(img)@),
        final(img).width() == old(img).width(),
        final(img).height() == old(img).height(),
{
    let count = ops.len();
    let mut k: usize = 0;
    while k < count
        invariant
            k <= count,
            count == ops@.len(),
            forall|j: int| 0 <= j < k ==> (#[trigger] ops@[j])@.is_valid(),
        decreases count - k,
    {
        if !ops[k].is_valid() {
            return Err(EngineError::MalformedPipelineDescriptor);
        }
        k += 1;
    }
    let ghost all = models(ops@);
    k = 0;
    while k < count
        invariant
            is_settled(math),
            k <= count,
            count == ops@.len(),
            all == models(ops@),
            forall|j: int| 0 <= j < count ==> (#[trigger] ops@[j])@.is_valid(),
            img@ == applied_all(math, all.take(k as int), old(img)@),
            img.width() == old(img).width(),
            img.height() == old(img).height(),
        decreases count - k,
    {
        assert(all.take(k + 1).drop_last() =~= all.take(k as int));
        assert(all.take(k + 1).last() == ops@[k as int]@);
        let applied = ops[k].apply(img, math);
        assert(applied is Ok);
        k += 1;
    }
    assert(all.take(count as int) =~= all);
    Ok(())
}

/// Applies the operations that the descriptors name to the buffer, from
/// the first to the last.
///
/// Fails with `MalformedPipelineDescriptor` when a descriptor names no
/// operation, and then leaves the buffer as it was.
pub fn process_image<F: Fn(Primitive, u32, u32) -> u32>(
    img: &mut ImageBuffer,
    descriptors: &[OperationDescriptor],
    math: &F,
) -> (r: Result<(), EngineError>)
    requires
        is_settled(math),
    ensures
        r is Ok <==> forall|k: int|
            0 <= k < descriptors@.len() ==> (#[trigger] descriptors@[k]).meaning().is_some(),
        r is Err ==> r == Err::<(), EngineError>(EngineError::MalformedPipelineDescriptor)
            && final(img)@ == old(img)@,
        r is Ok ==> final(img)@ == applied_all(math, meanings(descriptors@), old(img)@),
        final(img).width() == old(img).width(),
        final(img).height() == old(img).height(),
{
    let count = descriptors.len();
    let mut k: usize = 0;
    while k < count
        invariant
            k <= count,
            count == descriptors@.len(),
            forall|j: int| 0 <= j < k ==> (#[trigger] descriptors@[j]).meaning().is_some(),
        decreases count - k,
    {
        if !descriptors[k].is_well_formed() {
            return Err(EngineError::MalformedPipelineDescriptor);
        }
        k += 1;
    }
    let ghost all = meanings(descriptors@);
    k = 0;
    while k < count
        invariant
            is_settled(math),
            k <= count,
            count == descriptors@.len(),
            all == meanings(descriptors@),
            forall|j: int| 0 <= j < count ==> (#[trigger] descriptors@[j]).meaning().is_some(),
            img@ == applied_all(math, all.take(k as int), old(img)@),
            img.width() == old(img).width(),
            img.height() == old(img).height(),
        decreases count - k,
    {
        assert(all.take(k + 1).drop_last() =~= all.take(k as int));
        assert(all.take(k + 1).last() == descriptors@[k as int].meaning().unwrap());
        let d = &descriptors[k];
        if d.kind == "Exposure".to_owned() {
            expose(img, d.params[0], math);
        } else {
            tone(img, d.params.as_slice(), math);
        }
        k += 1;
    }
    assert(all.take(count as int) =~= all);
    Ok(())
}

} // verus!
