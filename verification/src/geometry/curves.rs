//! Curves, diced into chains of segments. A cubic curve is sampled along each of its
//! spans, a linear one at its control points; neighbouring samples are the ends of a
//! segment.

use crate::accel::bvh;
use crate::accel::bvh::{Aabb, Bvh};
use crate::arith;
use crate::arith::{
    add_vectors, computes, count, minus, multiply_vector, over, plus, times, Op,
};
use crate::double;
use crate::geometry::mesh;
use crate::geometry::patches;
use crate::geometry::splines;
use crate::math::{Vec3, HALF, ONE};
use crate::parser::requests::Particle;
use vstd::prelude::*;

verus! {

/// A sample of a curve: the first control point of its span, and how many of the span's
/// parts lie before it.
#[derive(Clone, Copy, Debug, PartialEq, Eq, Structural)]
pub struct CurveSample {
    pub first: usize,
    pub part: usize,
}

/// The samples of a curve of `n` control points. `step` lies between the spans of a cubic
/// curve, each cut into `parts`; a linear curve has none.
pub open spec fn curve_samples(n: nat, step: Option<nat>, parts: nat) -> Seq<CurveSample> {
    match step {
        None => Seq::new(n, |k: int| CurveSample { first: k as usize, part: 0 }),
        Some(step) => {
            let spans = patches::bicubic_spans(n, step, false);
            Seq::new(
                if spans == 0 { 0 } else { spans * parts + 1 },
                |k: int|
                    if k < spans * parts {
                        CurveSample {
                            first: (k / parts as int * step) as usize,
                            part: (k % parts as int) as usize,
                        }
                    } else {
                        CurveSample {
                            first: ((spans - 1) * step) as usize,
                            part: parts as usize,
                        }
                    },
            )
        },
    }
}

/// A span has its four control points among those of the curve.
proof fn span_is_inside(n: int, step: int, span: int)
    requires
        step >= 1,
        n >= 4,
        0 <= span <= (n - 4) / step,
    ensures
        0 <= span * step <= n - 4,
{
    assert(0 <= span * step <= n - 4) by (nonlinear_arith)
        requires
            step >= 1,
            n >= 4,
            0 <= span <= (n - 4) / step,
    ;
}

/// Samples a curve of `n` control points.
pub fn dice_curve(n: usize, step: Option<usize>, parts: usize) -> (r: Vec<CurveSample>)
    requires
        step != Some(0usize),
        step is Some ==> n * parts < usize::MAX,
    ensures
        r@ == curve_samples(
            n as nat,
            match step {
                Some(s) => Some(s as nat),
                None => None,
            },
            parts as nat,
        ),
{
    let mut out: Vec<CurveSample> = Vec::new();
    match step {
        None => {
            let mut k: usize = 0;
            while k < n
                invariant
                    k <= n,
                    out@.len() == k,
                    forall|i: int|
                        0 <= i < k ==> #[trigger] out@[i] == (CurveSample {
                            first: i as usize,
                            part: 0,
                        }),
                decreases n - k,
            {
                out.push(CurveSample { first: k, part: 0 });
                k += 1;
            }
            assert(out@ =~= curve_samples(n as nat, None, parts as nat));
        },
        Some(step) => {
            let ghost all = curve_samples(n as nat, Some(step as nat), parts as nat);
            let spans: usize = patches::bicubic_span_count(n, step, false);
            if spans == 0 {
                assert(out@ =~= all);
                return out;
            }
            let mut span: usize = 0;
            assert(0 * parts == 0) by (nonlinear_arith);
            assert(all.take(0) =~= out@);
            while span < spans
                invariant
                    span <= spans,
                    step >= 1,
                    n >= 4,
                    spans == (n - 4) / step as int + 1,
                    spans == patches::bicubic_spans(n as nat, step as nat, false),
                    all == curve_samples(n as nat, Some(step as nat), parts as nat),
                    0 <= span * parts,
                    out@ == all.take(span * parts),
                decreases spans - span,
            {
                proof {
                    span_is_inside(n as int, step as int, span as int);
                    assert((span + 1) * parts <= spans * parts) by (nonlinear_arith)
                        requires
                            span + 1 <= spans,
                            0 <= parts,
                    ;
                    assert((span + 1) * parts == span * parts + parts) by (nonlinear_arith);
                }
                let first: usize = span * step;
                let mut part: usize = 0;
                while part < parts
                    invariant
                        span < spans,
                        part <= parts,
                        first == span * step,
                        spans == patches::bicubic_spans(n as nat, step as nat, false),
                        all == curve_samples(n as nat, Some(step as nat), parts as nat),
                        0 <= span * parts,
                        span * parts + parts <= spans * parts,
                        out@ == all.take(span * parts + part),
                    decreases parts - part,
                {
                    let sample: CurveSample = CurveSample { first, part };
                    proof {
                        let k = span * parts + part;
                        vstd::arithmetic::div_mod::lemma_fundamental_div_mod_converse(
                            k,
                            parts as int,
                            span as int,
                            part as int,
                        );
                        assert(all[k] == sample);
                        assert(all.take(k + 1) =~= all.take(k).push(sample));
                    }
                    out.push(sample);
                    part += 1;
                }
                span += 1;
            }
            proof {
                span_is_inside(n as int, step as int, spans - 1);
            }
            let last: CurveSample = CurveSample { first: (spans - 1) * step, part: parts };
            assert(all[spans * parts] == last);
            out.push(last);
            assert(out@ =~= all);
        },
    }
    out
}

/// How many segments join this many samples.
pub fn joints(samples: usize) -> (r: usize)
    ensures
        r == if samples >= 1 { samples - 1 } else { 0 },
{
    if samples >= 1 {
        samples - 1
    } else {
        0
    }
}

/// Every sample of a cubic curve has the four control points of its span.
pub proof fn samples_have_controls(n: nat, step: nat, parts: nat, k: int)
    requires
        step >= 1,
        n <= usize::MAX,
        0 <= k < curve_samples(n, Some(step), parts).len(),
    ensures
        curve_samples(n, Some(step), parts)[k].first + 4 <= n,
{
    let spans = patches::bicubic_spans(n, step, false);
    let span = if k < spans * parts {
        k / parts as int
    } else {
        spans - 1
    };
    if k < spans * parts {
        assert(parts >= 1) by (nonlinear_arith)
            requires
                0 <= k < spans * parts,
                0 <= parts,
        ;
        assert(0 <= k / parts as int <= spans - 1) by (nonlinear_arith)
            requires
                0 <= k < spans * parts,
                parts >= 1,
        ;
    }
    span_is_inside(n as int, step as int, span);
}

// ---- segments --------------------------------------------------------------

/// One end of a segment in single precision: its place and its radius.
#[derive(Clone, Copy, Debug, PartialEq, Eq, Structural)]
pub struct CurveEnd {
    pub x: u32,
    pub y: u32,
    pub z: u32,
    pub radius: u32,
}

/// A segment with round ends, and the curve parameter at both: 0 at the root and 1 at the
/// tip.
#[derive(Clone, Copy, Debug, PartialEq, Eq, Structural)]
pub struct CurveSegment {
    pub p0: CurveEnd,
    pub p1: CurveEnd,
    pub v0: u32,
    pub v1: u32,
}

/// The weight of a control point of a cubic at a parameter.
pub open spec fn cubic_weight<F: Fn(Op, u64, u64) -> u64>(f: F, m: Seq<u64>, u: u64, k: int) -> u64 {
    arith::sum(
        f,
        arith::sum(
            f,
            arith::sum(
                f,
                arith::product(f, splines::power_at(f, u, 0), m[k]),
                arith::product(f, splines::power_at(f, u, 1), m[4 + k]),
            ),
            arith::product(f, splines::power_at(f, u, 2), m[8 + k]),
        ),
        arith::product(f, splines::power_at(f, u, 3), m[12 + k]),
    )
}

/// The point of a curve at a sample; `m` is the basis of a cubic one.
pub open spec fn curve_point<F: Fn(Op, u64, u64) -> u64>(
    f: F,
    chain: Seq<Vec3>,
    m: Option<Seq<u64>>,
    s: CurveSample,
    parts: int,
) -> Vec3 {
    let g = s.first as int;
    match m {
        None => chain[g],
        Some(m) => {
            let u = arith::quotient(
                f,
                arith::counted(s.part as int),
                arith::counted(parts),
            );
            arith::vector_sum(
                f,
                arith::vector_sum(
                    f,
                    arith::vector_sum(
                        f,
                        arith::vector_multiple(f, chain[g], cubic_weight(f, m, u, 0)),
                        arith::vector_multiple(f, chain[g + 1], cubic_weight(f, m, u, 1)),
                    ),
                    arith::vector_multiple(f, chain[g + 2], cubic_weight(f, m, u, 2)),
                ),
                arith::vector_multiple(f, chain[g + 3], cubic_weight(f, m, u, 3)),
            )
        },
    }
}

/// The points of a curve.
pub open spec fn curve_points<F: Fn(Op, u64, u64) -> u64>(
    f: F,
    chain: Seq<Vec3>,
    cubic: Option<(Seq<u64>, nat)>,
    parts: nat,
) -> Seq<Vec3> {
    match cubic {
        None => chain,
        Some((m, step)) => {
            let samples = curve_samples(chain.len(), Some(step), parts);
            Seq::new(
                samples.len(),
                |k: int| curve_point(f, chain, Some(m), samples[k], parts as int),
            )
        },
    }
}

/// An end of a segment: its width goes from root to tip with the parameter.
pub open spec fn curve_end<F: Fn(Op, u64, u64) -> u64>(
    f: F,
    p: Vec3,
    v: u64,
    root: u64,
    tip: u64,
) -> CurveEnd {
    let width = arith::sum(f, root, arith::product(f, arith::difference(f, tip, root), v));
    CurveEnd {
        x: double::narrowed(p.x),
        y: double::narrowed(p.y),
        z: double::narrowed(p.z),
        radius: double::narrowed(arith::product(f, width, HALF)),
    }
}

/// How far along a curve its point `i` is.
pub open spec fn way_along<F: Fn(Op, u64, u64) -> u64>(f: F, i: int, n: int) -> u64 {
    arith::quotient(f, arith::counted(i), arith::counted(n - 1))
}

/// The segment behind point `i` of a curve.
pub open spec fn segment_at<F: Fn(Op, u64, u64) -> u64>(
    f: F,
    points: Seq<Vec3>,
    i: int,
    root: u64,
    tip: u64,
) -> CurveSegment {
    let va = way_along(f, i, points.len() as int);
    let vb = way_along(f, i + 1, points.len() as int);
    CurveSegment {
        p0: curve_end(f, points[i], va, root, tip),
        p1: curve_end(f, points[i + 1], vb, root, tip),
        v0: double::narrowed(va),
        v1: double::narrowed(vb),
    }
}

/// The segments between the points of a curve.
pub open spec fn segments_between<F: Fn(Op, u64, u64) -> u64>(
    f: F,
    points: Seq<Vec3>,
    root: u64,
    tip: u64,
) -> Seq<CurveSegment> {
    Seq::new(
        if points.len() >= 1 {
            (points.len() - 1) as nat
        } else {
            0
        },
        |i: int| segment_at(f, points, i, root, tip),
    )
}

fn find_weight<F: Fn(Op, u64, u64) -> u64>(f: &F, m: &Vec<u64>, u: u64, k: usize) -> (r: u64)
    requires
        computes(*f),
        m@.len() == 16,
        k < 4,
    ensures
        r == cubic_weight(*f, m@, u, k as int),
{
    let square: u64 = times(f, u, u);
    let cube: u64 = times(f, square, u);
    plus(
        f,
        plus(
            f,
            plus(f, times(f, cube, m[k]), times(f, square, m[4 + k])),
            times(f, u, m[8 + k]),
        ),
        times(f, ONE, m[12 + k]),
    )
}

fn find_point<F: Fn(Op, u64, u64) -> u64>(
    f: &F,
    chain: &Vec<Vec3>,
    m: &Vec<u64>,
    s: CurveSample,
    parts: usize,
) -> (r: Vec3)
    requires
        computes(*f),
        m@.len() == 16,
        s.first + 4 <= chain@.len(),
    ensures
        r == curve_point(*f, chain@, Some(m@), s, parts as int),
{
    let u: u64 = over(f, count(s.part), count(parts));
    let n: usize = chain.len();
    let g: usize = s.first;
    let a: Vec3 = multiply_vector(f, chain[g], find_weight(f, m, u, 0));
    let b: Vec3 = multiply_vector(f, chain[g + 1], find_weight(f, m, u, 1));
    let c: Vec3 = multiply_vector(f, chain[g + 2], find_weight(f, m, u, 2));
    let d: Vec3 = multiply_vector(f, chain[g + 3], find_weight(f, m, u, 3));
    add_vectors(f, add_vectors(f, add_vectors(f, a, b), c), d)
}

fn find_end<F: Fn(Op, u64, u64) -> u64>(f: &F, p: Vec3, v: u64, root: u64, tip: u64) -> (r: CurveEnd)
    requires
        computes(*f),
    ensures
        r == curve_end(*f, p, v, root, tip),
{
    let width: u64 = plus(f, root, times(f, minus(f, tip, root), v));
    CurveEnd {
        x: double::narrow(p.x),
        y: double::narrow(p.y),
        z: double::narrow(p.z),
        radius: double::narrow(times(f, width, HALF)),
    }
}

/// Appends the segments between the points of a curve.
fn push_segments<F: Fn(Op, u64, u64) -> u64>(
    out: &mut Vec<CurveSegment>,
    points: &Vec<Vec3>,
    root: u64,
    tip: u64,
    f: &F,
)
    requires
        computes(*f),
    ensures
        final(out)@ == old(out)@ + segments_between(*f, points@, root, tip),
{
    let ghost start = out@;
    let ghost all = segments_between(*f, points@, root, tip);
    let n: usize = points.len();
    let m: usize = joints(n);
    let mut i: usize = 0;
    assert(out@ =~= start + all.take(0));
    while i < m
        invariant
            i <= m,
            n == points@.len(),
            m == all.len(),
            m == 0 || m == n - 1,
            all == segments_between(*f, points@, root, tip),
            computes(*f),
            out@ == start + all.take(i as int),
        decreases m - i,
    {
        let whole: u64 = count(n - 1);
        let va: u64 = over(f, count(i), whole);
        let vb: u64 = over(f, count(i + 1), whole);
        let segment: CurveSegment = CurveSegment {
            p0: find_end(f, points[i], va, root, tip),
            p1: find_end(f, points[i + 1], vb, root, tip),
            v0: double::narrow(va),
            v1: double::narrow(vb),
        };
        out.push(segment);
        proof {
            assert(all[i as int] == segment);
            assert(all.take(i + 1) =~= all.take(i as int).push(segment));
            assert(out@ =~= start + all.take(i + 1));
        }
        i += 1;
    }
    assert(all.take(m as int) =~= all);
}

/// Appends the segments of a curve. `cubic` has the basis of a cubic curve and how many
/// control points lie between its spans, each of which is cut into `parts`.
pub fn push_curve<F: Fn(Op, u64, u64) -> u64>(
    out: &mut Vec<CurveSegment>,
    chain: &Vec<Vec3>,
    cubic: Option<(&Vec<u64>, usize)>,
    root: u64,
    tip: u64,
    parts: usize,
    f: &F,
)
    requires
        computes(*f),
        cubic matches Some((m, step)) ==> m@.len() == 16 && step >= 1 && chain@.len() * parts
            < usize::MAX,
    ensures
        final(out)@ == old(out)@ + segments_between(
            *f,
            curve_points(
                *f,
                chain@,
                match cubic {
                    Some((m, step)) => Some((m@, step as nat)),
                    None => None,
                },
                parts as nat,
            ),
            root,
            tip,
        ),
{
    match cubic {
        None => push_segments(out, chain, root, tip, f),
        Some((m, step)) => {
            let samples: Vec<CurveSample> = dice_curve(chain.len(), Some(step), parts);
            let n: usize = samples.len();
            let mut points: Vec<Vec3> = Vec::new();
            let mut k: usize = 0;
            while k < n
                invariant
                    k <= n == samples@.len(),
                    computes(*f),
                    m@.len() == 16,
                    step >= 1,
                    samples@ == curve_samples(
                        chain@.len(),
                        Some(step as nat),
                        parts as nat,
                    ),
                    points@.len() == k,
                    forall|j: int|
                        0 <= j < k ==> #[trigger] points@[j] == curve_point(
                            *f,
                            chain@,
                            Some(m@),
                            samples@[j],
                            parts as int,
                        ),
                decreases n - k,
            {
                let long: usize = chain.len();
                proof {
                    samples_have_controls(long as nat, step as nat, parts as nat, k as int);
                }
                points.push(find_point(f, chain, m, samples[k], parts));
                k += 1;
            }
            assert(points@ =~= curve_points(
                *f,
                chain@,
                Some((m@, step as nat)),
                parts as nat,
            ));
            push_segments(out, &points, root, tip, f);
        },
    }
}

/// The segment of a particle: a ball, in the middle of its curve.
pub open spec fn particle_segment<F: Fn(Op, u64, u64) -> u64>(f: F, p: Particle) -> CurveSegment {
    let end = CurveEnd {
        x: double::narrowed(p.center.x),
        y: double::narrowed(p.center.y),
        z: double::narrowed(p.center.z),
        radius: double::narrowed(arith::product(f, p.width, HALF)),
    };
    CurveSegment { p0: end, p1: end, v0: HALF_SINGLE, v1: HALF_SINGLE }
}

/// A half, in single precision.
pub const HALF_SINGLE: u32 = 0x3f00_0000;

/// The segments of particles.
pub fn particle_segments<F: Fn(Op, u64, u64) -> u64>(particles: &Vec<Particle>, f: &F) -> (r: Vec<
    CurveSegment,
>)
    requires
        computes(*f),
    ensures
        r@ == particles@.map_values(|p: Particle| particle_segment(*f, p)),
{
    let ghost all = particles@.map_values(|p: Particle| particle_segment(*f, p));
    let n: usize = particles.len();
    let mut out: Vec<CurveSegment> = Vec::new();
    let mut i: usize = 0;
    while i < n
        invariant
            i <= n == particles@.len(),
            computes(*f),
            out@.len() == i,
            forall|k: int| 0 <= k < i ==> #[trigger] out@[k] == particle_segment(*f, particles@[k]),
        decreases n - i,
    {
        let p: Particle = particles[i];
        let end: CurveEnd = CurveEnd {
            x: double::narrow(p.center.x),
            y: double::narrow(p.center.y),
            z: double::narrow(p.center.z),
            radius: double::narrow(times(f, p.width, HALF)),
        };
        out.push(CurveSegment { p0: end, p1: end, v0: HALF_SINGLE, v1: HALF_SINGLE });
        i += 1;
    }
    assert(out@ =~= all);
    out
}

/// The bits of eight and of a tenth.
pub const EIGHT: u64 = 0x4020_0000_0000_0000;

pub const TENTH: u64 = 0x3fb9_9999_9999_999a;

/// How many parts a span is cut into: fewer the larger the shading rate is, from two to 24.
pub open spec fn parts_at<F: Fn(Op, u64, u64) -> u64>(f: F, rate: u64) -> int {
    let n = double::cut_to(
        arith::quotient(f, EIGHT, double::greater(rate, TENTH)),
        usize::MAX as nat,
    );
    if n < 2 {
        2
    } else if n > 24 {
        24
    } else {
        n as int
    }
}

/// How many parts a span is cut into at a shading rate.
pub fn dice_parts<F: Fn(Op, u64, u64) -> u64>(rate: u64, f: &F) -> (r: usize)
    requires
        computes(*f),
    ensures
        r == parts_at(*f, rate),
        2 <= r <= 24,
{
    let n: usize = double::to_usize(over(f, EIGHT, double::larger_of(rate, TENTH)));
    if n < 2 {
        2
    } else if n > 24 {
        24
    } else {
        n
    }
}

// ---- boxes -----------------------------------------------------------------

/// The corners of the box around the ball at an end.
pub open spec fn end_corners<F: Fn(Op, u64, u64) -> u64>(f: F, e: CurveEnd) -> (Vec3, Vec3) {
    let c = Vec3::of(double::widened(e.x), double::widened(e.y), double::widened(e.z));
    let r = double::widened(e.radius);
    let wide = Vec3::of(r, r, r);
    (arith::vector_difference(f, c, wide), arith::vector_sum(f, c, wide))
}

/// The box of a segment: around both of its balls.
pub open spec fn segment_box<F: Fn(Op, u64, u64) -> u64>(f: F, s: CurveSegment) -> Aabb {
    let a = end_corners(f, s.p0);
    let b = end_corners(f, s.p1);
    bvh::box_around(seq![a.0, a.1, b.0, b.1])
}

fn find_corners<F: Fn(Op, u64, u64) -> u64>(f: &F, e: CurveEnd) -> (r: (Vec3, Vec3))
    requires
        computes(*f),
    ensures
        r == end_corners(*f, e),
{
    let c: Vec3 = Vec3::new(double::widen(e.x), double::widen(e.y), double::widen(e.z));
    let r: u64 = double::widen(e.radius);
    let wide: Vec3 = Vec3::new(r, r, r);
    (arith::subtract_vectors(f, c, wide), add_vectors(f, c, wide))
}

/// The boxes of segments.
pub fn segment_boxes<F: Fn(Op, u64, u64) -> u64>(segments: &Vec<CurveSegment>, f: &F) -> (r: Vec<
    Aabb,
>)
    requires
        computes(*f),
    ensures
        r@ == segments@.map_values(|s: CurveSegment| segment_box(*f, s)),
{
    let ghost all = segments@.map_values(|s: CurveSegment| segment_box(*f, s));
    let n: usize = segments.len();
    let mut out: Vec<Aabb> = Vec::new();
    let mut i: usize = 0;
    while i < n
        invariant
            i <= n == segments@.len(),
            computes(*f),
            out@.len() == i,
            forall|k: int| 0 <= k < i ==> #[trigger] out@[k] == segment_box(*f, segments@[k]),
        decreases n - i,
    {
        let s: CurveSegment = segments[i];
        let a: (Vec3, Vec3) = find_corners(f, s.p0);
        let b: (Vec3, Vec3) = find_corners(f, s.p1);
        let points: Vec<Vec3> = vec![a.0, a.1, b.0, b.1];
        assert(points@ =~= seq![a.0, a.1, b.0, b.1]);
        out.push(Aabb::from_points(&points));
        i += 1;
    }
    assert(out@ =~= all);
    out
}

/// Segments with their hierarchy.
pub struct CurveSet {
    pub segments: Vec<CurveSegment>,
    pub blas: Bvh,
    pub local_bounds: Aabb,
}

impl CurveSet {
    /// Segments with their hierarchy.
    pub fn new<F: Fn(Op, u64, u64) -> u64>(segments: Vec<CurveSegment>, f: &F) -> (r: CurveSet)
        requires
            computes(*f),
            segments@.len() <= 0x7fff_ffff,
        ensures
            r.segments == segments,
            ({
                let boxes = segments@.map_values(|s: CurveSegment| segment_box(*f, s));
                &&& r.local_bounds == mesh::box_of_boxes(boxes)
                &&& r.blas@ == bvh::hierarchy_over(boxes, *f)
                &&& bvh::is_hierarchy(r.blas@, boxes)
            }),
    {
        let boxes: Vec<Aabb> = segment_boxes(&segments, f);
        let local_bounds: Aabb = mesh::join_boxes(&boxes);
        let blas: Bvh = Bvh::build(&boxes, f);
        CurveSet { segments, blas, local_bounds }
    }

    /// How many segments there are.
    pub fn segment_count(&self) -> (r: usize)
        ensures
            r == self.segments@.len(),
    {
        self.segments.len()
    }
}

} // verus!
