//! The projective transform between two views of a plane, from points
//! matched between them.
//!
//! The method is the direct linear transform. Each point set is first
//! conditioned: moved so that its centroid is the origin and scaled so that
//! the root of its mean squared distance from there is one. Every match
//! then gives two linear equations in the nine entries of the transform. A
//! solver handed in by the caller finds the unit vector that the equations
//! map nearest to zero. That vector, taken out of the conditioned frames
//! and divided by its last entry, is the transform.
use vstd::prelude::*;
use crate::arithmetic::{
    ask, difference, is_settled, product, quotient, square_root, sum, Primitive,
};
use vstd::arithmetic::power2::{pow2, lemma_pow2_adds, lemma_pow2_pos};
use crate::binary32::{
    abs, is_finite, is_zero, lemma_magnitude_order, lemma_magnitude_positive, magnitude, negate,
    negate_spec, unit, HIDDEN_BIT, INFINITY, ONE, ZERO,
};
use crate::count::from_count;
use crate::error::EngineError;

verus! {

/// Minus one.
pub const MINUS_ONE: u32 = 0xbf80_0000;

/// Two to the power of -20: a last entry below it, sign aside, counts as
/// zero.
pub const NEGLIGIBLE: u32 = 0x3580_0000;

/// A point of the source view and the point of the destination view that
/// it was matched with.
#[derive(Clone, Copy, Debug, PartialEq, Eq, Structural)]
pub struct PointCorrespondence {
    pub src_x: u32,
    pub src_y: u32,
    pub dst_x: u32,
    pub dst_y: u32,
}

/// A projective transform of the plane: nine entries, row after row, all
/// of them finite numbers and the last of them one.
pub struct HomographyMatrix {
    pub entries: [u32; 9],
}

/// The frame in which a point set is conditioned.
#[derive(Clone, Copy, Debug, PartialEq, Eq, Structural)]
pub struct Conditioning {
    /// The centroid of the points.
    pub centre_x: u32,
    pub centre_y: u32,
    /// The root of the mean squared distance of the points from the
    /// centroid.
    pub spread: u32,
}

/// The matches that a flat sequence holds: four values each, the source
/// point and then the destination point. Values after the last full group
/// of four belong to no match.
pub open spec fn correspondences(points: Seq<u32>) -> Seq<PointCorrespondence> {
    Seq::new(
        (points.len() / 4) as nat,
        |k: int|
            PointCorrespondence {
                src_x: points[4 * k],
                src_y: points[4 * k + 1],
                dst_x: points[4 * k + 2],
                dst_y: points[4 * k + 3],
            },
    )
}

/// The source points of the matches.
pub open spec fn sources(matches: Seq<PointCorrespondence>) -> Seq<(u32, u32)> {
    Seq::new(matches.len(), |k: int| (matches[k].src_x, matches[k].src_y))
}

/// The destination points of the matches.
pub open spec fn targets(matches: Seq<PointCorrespondence>) -> Seq<(u32, u32)> {
    Seq::new(matches.len(), |k: int| (matches[k].dst_x, matches[k].dst_y))
}

/// The sums of the two coordinates, added in the order of the points from
/// zero.
pub open spec fn coordinate_sums<F: Fn(Primitive, u32, u32) -> u32>(
    math: &F,
    points: Seq<(u32, u32)>,
) -> (u32, u32)
    decreases points.len(),
{
    if points.len() == 0 {
        (ZERO, ZERO)
    } else {
        let before = coordinate_sums(math, points.drop_last());
        (sum(math, before.0, points.last().0), sum(math, before.1, points.last().1))
    }
}

/// The squared distance between a point and a centre.
pub open spec fn squared_distance<F: Fn(Primitive, u32, u32) -> u32>(
    math: &F,
    p: (u32, u32),
    centre: (u32, u32),
) -> u32 {
    let dx = difference(math, p.0, centre.0);
    let dy = difference(math, p.1, centre.1);
    sum(math, product(math, dx, dx), product(math, dy, dy))
}

/// The sum of the squared distances of the points from a centre, added in
/// the order of the points from zero.
pub open spec fn squared_distance_sum<F: Fn(Primitive, u32, u32) -> u32>(
    math: &F,
    points: Seq<(u32, u32)>,
    centre: (u32, u32),
) -> u32
    decreases points.len(),
{
    if points.len() == 0 {
        ZERO
    } else {
        sum(
            math,
            squared_distance_sum(math, points.drop_last(), centre),
            squared_distance(math, points.last(), centre),
        )
    }
}

/// The frame of a point set: its centroid, and the root of the mean
/// squared distance from it.
pub open spec fn conditioning<F: Fn(Primitive, u32, u32) -> u32>(
    math: &F,
    points: Seq<(u32, u32)>,
) -> Conditioning {
    let n = from_count(points.len() as u64);
    let sums = coordinate_sums(math, points);
    let centre = (quotient(math, sums.0, n), quotient(math, sums.1, n));
    Conditioning {
        centre_x: centre.0,
        centre_y: centre.1,
        spread: square_root(math, quotient(math, squared_distance_sum(math, points, centre), n)),
    }
}

/// A point in its set's frame: moved by the centroid, divided by the
/// spread.
pub open spec fn conditioned<F: Fn(Primitive, u32, u32) -> u32>(
    math: &F,
    p: (u32, u32),
    frame: Conditioning,
) -> (u32, u32) {
    (
        quotient(math, difference(math, p.0, frame.centre_x), frame.spread),
        quotient(math, difference(math, p.1, frame.centre_y), frame.spread),
    )
}

/// Whether a spread can be divided by: a number other than zero.
pub open spec fn is_usable(spread: u32) -> bool {
    is_finite(spread) && !is_zero(spread)
}

/// Whether a last entry is too small, or no number at all, to divide by.
pub open spec fn is_negligible(entry: u32) -> bool {
    abs(entry) < NEGLIGIBLE || abs(entry) >= INFINITY
}

/// A last entry is negligible exactly where it is no finite number, or a
/// number that is below 2^-20, sign aside.
pub proof fn negligible_is_small(entry: u32)
    ensures
        is_negligible(entry) <==> !is_finite(entry) || magnitude(entry) * pow2(20) < unit(),
{
    lemma_magnitude_positive(entry);
    lemma_magnitude_order(abs(entry), NEGLIGIBLE);
    assert(NEGLIGIBLE / HIDDEN_BIT == 107 && NEGLIGIBLE % HIDDEN_BIT == 0);
    lemma_pow2_adds(106, 20);
    lemma_pow2_pos(20);
    let m = magnitude(entry);
    let limit = magnitude(NEGLIGIBLE);
    assert(limit * pow2(20) == unit()) by (nonlinear_arith)
        requires
            limit == HIDDEN_BIT * pow2(106),
            unit() == HIDDEN_BIT * pow2(126),
            pow2(126) == pow2(106) * pow2(20),
    ;
    assert((m < limit) == (m * pow2(20) < limit * pow2(20))) by (nonlinear_arith)
        requires
            pow2(20) > 0,
    ;
}

/// The two equations that one match gives, for a source point (x, y) and a
/// destination point (u, v), both conditioned: the rows
/// `-x -y -1  0  0  0  u*x u*y u` and `0  0  0 -x -y -1  v*x v*y v`.
pub open spec fn equations<F: Fn(Primitive, u32, u32) -> u32>(
    math: &F,
    s: (u32, u32),
    d: (u32, u32),
) -> Seq<u32> {
    seq![
        negate_spec(s.0),
        negate_spec(s.1),
        MINUS_ONE,
        ZERO,
        ZERO,
        ZERO,
        product(math, d.0, s.0),
        product(math, d.0, s.1),
        d.0,
        ZERO,
        ZERO,
        ZERO,
        negate_spec(s.0),
        negate_spec(s.1),
        MINUS_ONE,
        product(math, d.1, s.0),
        product(math, d.1, s.1),
        d.1,
    ]
}

/// The equations of all matches, row after row, each match conditioned in
/// the frames of its two sets.
pub open spec fn system<F: Fn(Primitive, u32, u32) -> u32>(
    math: &F,
    matches: Seq<PointCorrespondence>,
    from: Conditioning,
    to: Conditioning,
) -> Seq<u32>
    decreases matches.len(),
{
    if matches.len() == 0 {
        Seq::empty()
    } else {
        let m = matches.last();
        system(math, matches.drop_last(), from, to) + equations(
            math,
            conditioned(math, (m.src_x, m.src_y), from),
            conditioned(math, (m.dst_x, m.dst_y), to),
        )
    }
}

/// The matrix that takes a point into a frame.
pub open spec fn entering<F: Fn(Primitive, u32, u32) -> u32>(math: &F, frame: Conditioning) -> Seq<u32> {
    let scale = quotient(math, ONE, frame.spread);
    seq![
        scale,
        ZERO,
        negate_spec(quotient(math, frame.centre_x, frame.spread)),
        ZERO,
        scale,
        negate_spec(quotient(math, frame.centre_y, frame.spread)),
        ZERO,
        ZERO,
        ONE,
    ]
}

/// The matrix that takes a point out of a frame.
pub open spec fn leaving(frame: Conditioning) -> Seq<u32> {
    seq![
        frame.spread,
        ZERO,
        frame.centre_x,
        ZERO,
        frame.spread,
        frame.centre_y,
        ZERO,
        ZERO,
        ONE,
    ]
}

/// One entry of a product of two 3 by 3 matrices: the products along the
/// row and the column, added from the left.
pub open spec fn cell<F: Fn(Primitive, u32, u32) -> u32>(
    math: &F,
    a: Seq<u32>,
    b: Seq<u32>,
    row: int,
    col: int,
) -> u32 {
    sum(
        math,
        sum(math, product(math, a[3 * row], b[col]), product(math, a[3 * row + 1], b[3 + col])),
        product(math, a[3 * row + 2], b[6 + col]),
    )
}

/// The product of two 3 by 3 matrices.
pub open spec fn times<F: Fn(Primitive, u32, u32) -> u32>(math: &F, a: Seq<u32>, b: Seq<u32>) -> Seq<
    u32,
> {
    Seq::new(9, |i: int| cell(math, a, b, i / 3, i % 3))
}

/// A matrix divided by its last entry, which becomes one.
pub open spec fn rescaled<F: Fn(Primitive, u32, u32) -> u32>(math: &F, h: Seq<u32>) -> Seq<u32> {
    Seq::new(
        9,
        |i: int|
            if i == 8 {
                ONE
            } else {
                quotient(math, h[i], h[8])
            },
    )
}

/// Whether every entry is a finite number.
pub open spec fn all_finite(h: Seq<u32>) -> bool {
    forall|i: int| 0 <= i < h.len() ==> is_finite(#[trigger] h[i])
}

/// What a solver's answer holds.
pub open spec fn answer_view(r: Option<[u32; 9]>) -> Option<Seq<u32>> {
    match r {
        Some(h) => Some(h@),
        None => None,
    }
}

/// A solver is settled when it accepts every system and its answer is
/// decided by the entries of the system.
pub open spec fn solver_is_settled<S: Fn(&Vec<u32>) -> Option<[u32; 9]>>(solver: &S) -> bool {
    &&& forall|a: Vec<u32>| call_requires(*solver, (&a,))
    &&& forall|a: Vec<u32>, b: Vec<u32>, r: Option<[u32; 9]>, s: Option<[u32; 9]>|
        a@ == b@ && call_ensures(*solver, (&a,), r) && call_ensures(*solver, (&b,), s)
            ==> answer_view(r) == answer_view(s)
}

/// Whether the solver can answer `h` to a system with the entries `a`.
pub open spec fn answers<S: Fn(&Vec<u32>) -> Option<[u32; 9]>>(
    solver: &S,
    a: Seq<u32>,
    h: Option<Seq<u32>>,
) -> bool {
    exists|v: Vec<u32>, r: Option<[u32; 9]>|
        v@ == a && call_ensures(*solver, (&v,), r) && answer_view(r) == h
}

/// The answer of a settled solver to a system. The solver is asked for the
/// unit vector that the system maps nearest to zero, and for nothing where
/// the system leaves more than one direction open; its answer is taken as
/// it is.
pub open spec fn null_vector<S: Fn(&Vec<u32>) -> Option<[u32; 9]>>(solver: &S, a: Seq<u32>) -> Option<
    Seq<u32>,
> {
    choose|h: Option<Seq<u32>>| answers(solver, a, h)
}

/// The transform that the matches determine, or the reason why they
/// determine none.
pub open spec fn estimate<F: Fn(Primitive, u32, u32) -> u32, S: Fn(&Vec<u32>) -> Option<[u32; 9]>>(
    math: &F,
    solver: &S,
    matches: Seq<PointCorrespondence>,
) -> Result<Seq<u32>, EngineError> {
    if matches.len() < 4 {
        Err(EngineError::InsufficientCorrespondences)
    } else {
        let from = conditioning(math, sources(matches));
        let to = conditioning(math, targets(matches));
        if !is_usable(from.spread) || !is_usable(to.spread) {
            Err(EngineError::SingularSystem)
        } else {
            match null_vector(solver, system(math, matches, from, to)) {
                None => Err(EngineError::SingularSystem),
                Some(h) => {
                    let full = times(math, times(math, leaving(to), h), entering(math, from));
                    if is_negligible(full[8]) || !all_finite(rescaled(math, full)) {
                        Err(EngineError::SingularSystem)
                    } else {
                        Ok(rescaled(math, full))
                    }
                },
            }
        }
    }
}

/// Whether `r` is what `estimate` gives.
pub open spec fn is_estimate(r: Result<HomographyMatrix, EngineError>, e: Result<Seq<u32>, EngineError>) -> bool {
    match e {
        Ok(h) => r is Ok && r.unwrap().entries@ == h,
        Err(reason) => r == Err::<HomographyMatrix, EngineError>(reason),
    }
}

/// Reads the matches out of a flat sequence, four values each.
pub fn frame_correspondences(points: &[u32]) -> (r: Vec<PointCorrespondence>)
    ensures
        r@ == correspondences(points@),
{
    let total = points.len();
    let count = total / 4;
    let mut r: Vec<PointCorrespondence> = Vec::new();
    let mut k: usize = 0;
    while k < count
        invariant
            k <= count,
            total == points@.len(),
            count == total / 4,
            r@.len() == k,
            forall|j: int| 0 <= j < k ==> r@[j] == correspondences(points@)[j],
        decreases count - k,
    {
        let base: usize = 4 * k;
        r.push(
            PointCorrespondence {
                src_x: points[base],
                src_y: points[base + 1],
                dst_x: points[base + 2],
                dst_y: points[base + 3],
            },
        );
        k += 1;
    }
    assert(r@ =~= correspondences(points@));
    r
}

fn source_points(matches: &[PointCorrespondence]) -> (r: Vec<(u32, u32)>)
    ensures
        r@ == sources(matches@),
{
    let mut r: Vec<(u32, u32)> = Vec::new();
    let mut k: usize = 0;
    while k < matches.len()
        invariant
            k <= matches@.len(),
            r@.len() == k,
            forall|j: int| 0 <= j < k ==> r@[j] == sources(matches@)[j],
        decreases matches@.len() - k,
    {
        r.push((matches[k].src_x, matches[k].src_y));
        k += 1;
    }
    assert(r@ =~= sources(matches@));
    r
}

fn target_points(matches: &[PointCorrespondence]) -> (r: Vec<(u32, u32)>)
    ensures
        r@ == targets(matches@),
{
    let mut r: Vec<(u32, u32)> = Vec::new();
    let mut k: usize = 0;
    while k < matches.len()
        invariant
            k <= matches@.len(),
            r@.len() == k,
            forall|j: int| 0 <= j < k ==> r@[j] == targets(matches@)[j],
        decreases matches@.len() - k,
    {
        r.push((matches[k].dst_x, matches[k].dst_y));
        k += 1;
    }
    assert(r@ =~= targets(matches@));
    r
}

/// Finds the frame of a point set.
fn condition<F: Fn(Primitive, u32, u32) -> u32>(points: &Vec<(u32, u32)>, math: &F) -> (r: Conditioning)
    requires
        is_settled(math),
    ensures
        r == conditioning(math, points@),
{
    let count = points.len();
    let n = from_count(count as u64);
    let mut sum_x = ZERO;
    let mut sum_y = ZERO;
    let mut k: usize = 0;
    while k < count
        invariant
            is_settled(math),
            k <= count,
            count == points@.len(),
            (sum_x, sum_y) == coordinate_sums(math, points@.take(k as int)),
        decreases count - k,
    {
        assert(points@.take(k + 1).drop_last() =~= points@.take(k as int));
        sum_x = ask(math, Primitive::Add, sum_x, points[k].0);
        sum_y = ask(math, Primitive::Add, sum_y, points[k].1);
        k += 1;
    }
    assert(points@.take(count as int) =~= points@);
    let centre_x = ask(math, Primitive::Div, sum_x, n);
    let centre_y = ask(math, Primitive::Div, sum_y, n);
    let mut total = ZERO;
    k = 0;
    while k < count
        invariant
            is_settled(math),
            k <= count,
            count == points@.len(),
            total == squared_distance_sum(math, points@.take(k as int), (centre_x, centre_y)),
        decreases count - k,
    {
        assert(points@.take(k + 1).drop_last() =~= points@.take(k as int));
        let dx = ask(math, Primitive::Sub, points[k].0, centre_x);
        let dy = ask(math, Primitive::Sub, points[k].1, centre_y);
        let xx = ask(math, Primitive::Mul, dx, dx);
        let yy = ask(math, Primitive::Mul, dy, dy);
        total = ask(math, Primitive::Add, total, ask(math, Primitive::Add, xx, yy));
        k += 1;
    }
    let mean = ask(math, Primitive::Div, total, n);
    Conditioning { centre_x, centre_y, spread: ask(math, Primitive::Sqrt, mean, 0) }
}

/// Takes a point into a frame.
fn enter<F: Fn(Primitive, u32, u32) -> u32>(x: u32, y: u32, frame: &Conditioning, math: &F) -> (r: (
    u32,
    u32,
))
    requires
        is_settled(math),
    ensures
        r == conditioned(math, (x, y), *frame),
{
    let dx = ask(math, Primitive::Sub, x, frame.centre_x);
    let dy = ask(math, Primitive::Sub, y, frame.centre_y);
    (ask(math, Primitive::Div, dx, frame.spread), ask(math, Primitive::Div, dy, frame.spread))
}

/// Writes down the equations of all matches.
fn build_system<F: Fn(Primitive, u32, u32) -> u32>(
    matches: &[PointCorrespondence],
    from: &Conditioning,
    to: &Conditioning,
    math: &F,
) -> (a: Vec<u32>)
    requires
        is_settled(math),
    ensures
        a@ == system(math, matches@, *from, *to),
{
    let mut a: Vec<u32> = Vec::new();
    let mut k: usize = 0;
    while k < matches.len()
        invariant
            is_settled(math),
            k <= matches@.len(),
            a@ == system(math, matches@.take(k as int), *from, *to),
        decreases matches@.len() - k,
    {
        assert(matches@.take(k + 1).drop_last() =~= matches@.take(k as int));
        let ghost before = a@;
        let m = matches[k];
        let s = enter(m.src_x, m.src_y, from, math);
        let d = enter(m.dst_x, m.dst_y, to, math);
        let minus_x = negate(s.0);
        let minus_y = negate(s.1);
        a.push(minus_x);
        a.push(minus_y);
        a.push(MINUS_ONE);
        a.push(ZERO);
        a.push(ZERO);
        a.push(ZERO);
        a.push(ask(math, Primitive::Mul, d.0, s.0));
        a.push(ask(math, Primitive::Mul, d.0, s.1));
        a.push(d.0);
        a.push(ZERO);
        a.push(ZERO);
        a.push(ZERO);
        a.push(minus_x);
        a.push(minus_y);
        a.push(MINUS_ONE);
        a.push(ask(math, Primitive::Mul, d.1, s.0));
        a.push(ask(math, Primitive::Mul, d.1, s.1));
        a.push(d.1);
        assert(a@ =~= before + equations(math, s, d));
        k += 1;
    }
    assert(matches@.take(matches@.len() as int) =~= matches@);
    a
}

fn entry<F: Fn(Primitive, u32, u32) -> u32>(
    a: &[u32; 9],
    b: &[u32; 9],
    row: usize,
    col: usize,
    math: &F,
) -> (r: u32)
    requires
        is_settled(math),
        row < 3,
        col < 3,
    ensures
        r == cell(math, a@, b@, row as int, col as int),
{
    let first = ask(math, Primitive::Mul, a[3 * row], b[col]);
    let second = ask(math, Primitive::Mul, a[3 * row + 1], b[3 + col]);
    let third = ask(math, Primitive::Mul, a[3 * row + 2], b[6 + col]);
    ask(math, Primitive::Add, ask(math, Primitive::Add, first, second), third)
}

/// Multiplies two 3 by 3 matrices.
fn multiply<F: Fn(Primitive, u32, u32) -> u32>(a: &[u32; 9], b: &[u32; 9], math: &F) -> (r: [u32; 9])
    requires
        is_settled(math),
    ensures
        r@ == times(math, a@, b@),
{
    let r = [
        entry(a, b, 0, 0, math),
        entry(a, b, 0, 1, math),
        entry(a, b, 0, 2, math),
        entry(a, b, 1, 0, math),
        entry(a, b, 1, 1, math),
        entry(a, b, 1, 2, math),
        entry(a, b, 2, 0, math),
        entry(a, b, 2, 1, math),
        entry(a, b, 2, 2, math),
    ];
    assert(r@ =~= times(math, a@, b@));
    r
}

/// Puts the system to the solver.
fn solve_system<S: Fn(&Vec<u32>) -> Option<[u32; 9]>>(a: &Vec<u32>, solver: &S) -> (r: Option<
    [u32; 9],
>)
    requires
        solver_is_settled(solver),
    ensures
        answer_view(r) == null_vector(solver, a@),
{
    let r = solver(a);
    proof {
        assert(answers(solver, a@, answer_view(r)));
        let chosen = null_vector(solver, a@);
        assert(answers(solver, a@, chosen));
    }
    r
}

/// Finds the projective transform that takes each source point to its
/// destination point, as nearly as one transform can.
///
/// Fails with `InsufficientCorrespondences` on fewer than four matches, and
/// with `SingularSystem` where the matches determine no transform: a point
/// set without spread, equations that leave more than one direction open,
/// a transform whose last entry is negligible, or one with an entry that is
/// no finite number. A transform that is returned has nine finite entries,
/// the last of them one.
pub fn solve<F: Fn(Primitive, u32, u32) -> u32, S: Fn(&Vec<u32>) -> Option<[u32; 9]>>(
    matches: &[PointCorrespondence],
    math: &F,
    solver: &S,
) -> (r: Result<HomographyMatrix, EngineError>)
    requires
        is_settled(math),
        solver_is_settled(solver),
    ensures
        is_estimate(r, estimate(math, solver, matches@)),
        r is Ok ==> r.unwrap().entries@[8] == ONE,
        r is Ok ==> all_finite(r.unwrap().entries@),
{
    if matches.len() < 4 {
        return Err(EngineError::InsufficientCorrespondences);
    }
    let from = condition(&source_points(matches), math);
    let to = condition(&target_points(matches), math);
    if !is_finite(from.spread) || is_zero(from.spread) || !is_finite(to.spread) || is_zero(
        to.spread,
    ) {
        return Err(EngineError::SingularSystem);
    }
    let a = build_system(matches, &from, &to, math);
    let h = match solve_system(&a, solver) {
        Some(h) => h,
        None => {
            return Err(EngineError::SingularSystem);
        },
    };
    let scale = ask(math, Primitive::Div, ONE, from.spread);
    let shift_x = negate(ask(math, Primitive::Div, from.centre_x, from.spread));
    let shift_y = negate(ask(math, Primitive::Div, from.centre_y, from.spread));
    let into = [scale, ZERO, shift_x, ZERO, scale, shift_y, ZERO, ZERO, ONE];
    let out = [to.spread, ZERO, to.centre_x, ZERO, to.spread, to.centre_y, ZERO, ZERO, ONE];
    assert(into@ =~= entering(math, from));
    assert(out@ =~= leaving(to));
    let full = multiply(&multiply(&out, &h, math), &into, math);
    let last = full[8];
    if abs(last) < NEGLIGIBLE || abs(last) >= INFINITY {
        return Err(EngineError::SingularSystem);
    }
    let entries = [
        ask(math, Primitive::Div, full[0], last),
        ask(math, Primitive::Div, full[1], last),
        ask(math, Primitive::Div, full[2], last),
        ask(math, Primitive::Div, full[3], last),
        ask(math, Primitive::Div, full[4], last),
        ask(math, Primitive::Div, full[5], last),
        ask(math, Primitive::Div, full[6], last),
        ask(math, Primitive::Div, full[7], last),
        ONE,
    ];
    assert(entries@ =~= rescaled(math, full@));
    let mut finite = true;
    let mut i: usize = 0;
    while i < 9
        invariant
            i <= 9,
            entries@.len() == 9,
            finite <==> forall|j: int| 0 <= j < i ==> is_finite(#[trigger] entries@[j]),
        decreases 9 - i,
    {
        if !is_finite(entries[i]) {
            finite = false;
        }
        i += 1;
    }
    if !finite {
        return Err(EngineError::SingularSystem);
    }
    Ok(HomographyMatrix { entries })
}

/// Finds the projective transform from matches given as a flat sequence,
/// four values each: the source point and then the destination point.
///
/// Fails as `solve` does.
pub fn solve_homography_stub<F: Fn(Primitive, u32, u32) -> u32, S: Fn(&Vec<u32>) -> Option<[u32; 9]>>(
    points: &[u32],
    math: &F,
    solver: &S,
) -> (r: Result<HomographyMatrix, EngineError>)
    requires
        is_settled(math),
        solver_is_settled(solver),
    ensures
        is_estimate(r, estimate(math, solver, correspondences(points@))),
        r is Ok ==> r.unwrap().entries@[8] == ONE,
        r is Ok ==> all_finite(r.unwrap().entries@),
{
    let matches = frame_correspondences(points);
    solve(matches.as_slice(), math, solver)
}

} // verus!
