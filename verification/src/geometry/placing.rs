//! Where the points of a subdivided cage lie: the weighted sums that the rules stand for.

use crate::arith;
use crate::arith::{
    add_vectors, computes, count, minus, multiply_vector, over, plus, subtract_vectors, times, Op,
};
use crate::double;
use crate::geometry::subdiv::{CageView, EdgeKey, PointRule, RuleView, SubdivCage};
use crate::math::{Vec3, HALF, ONE, ZERO};
use vstd::prelude::*;

verus! {

pub const TWO: u64 = 0x4000_0000_0000_0000;

pub const THREE: u64 = 0x4008_0000_0000_0000;

pub const SIX: u64 = 0x4018_0000_0000_0000;

/// One over eight.
pub const EIGHTH: u64 = 0x3fc0_0000_0000_0000;

/// One over a number.
pub open spec fn reciprocal<F: Fn(Op, u64, u64) -> u64>(f: F, n: u64) -> u64 {
    arith::quotient(f, ONE, n)
}

/// A vertex of a cage; one that there is not lies at the origin.
pub open spec fn vertex_at(c: CageView, v: u32) -> Vec3 {
    if v < c.positions.len() {
        c.positions[v as int]
    } else {
        Vec3::of(ZERO, ZERO, ZERO)
    }
}

fn vertex(cage: &SubdivCage, v: u32) -> (r: Vec3)
    ensures
        r == vertex_at(cage@, v),
{
    if (v as usize) < cage.positions.len() {
        cage.positions[v as usize]
    } else {
        Vec3::zero()
    }
}

/// The sum of the first `n` corners of a face.
pub open spec fn corner_sum<F: Fn(Op, u64, u64) -> u64>(
    f: F,
    c: CageView,
    ring: Seq<u32>,
    n: int,
) -> Vec3
    decreases n,
{
    if n <= 0 {
        Vec3::of(ZERO, ZERO, ZERO)
    } else {
        arith::vector_sum(f, corner_sum(f, c, ring, n - 1), vertex_at(c, ring[n - 1]))
    }
}

/// The ring of a face; one that there is not has no corners.
pub open spec fn ring_of(c: CageView, face: u32) -> Seq<u32> {
    if face < c.faces.len() {
        c.faces[face as int]
    } else {
        seq![]
    }
}

/// The point of a face: the mean of its corners.
pub open spec fn face_point<F: Fn(Op, u64, u64) -> u64>(f: F, c: CageView, face: u32) -> Vec3 {
    let ring = ring_of(c, face);
    arith::vector_multiple(
        f,
        corner_sum(f, c, ring, ring.len() as int),
        reciprocal(f, arith::counted(ring.len() as int)),
    )
}

fn find_face_point<F: Fn(Op, u64, u64) -> u64>(cage: &SubdivCage, face: u32, f: &F) -> (r: Vec3)
    requires
        computes(*f),
    ensures
        r == face_point(*f, cage@, face),
{
    if face as usize >= cage.faces.len() {
        let none: u64 = count(0);
        return multiply_vector(f, Vec3::zero(), over(f, ONE, none));
    }
    let ring: &Vec<u32> = &cage.faces[face as usize];
    let n: usize = ring.len();
    let mut total: Vec3 = Vec3::zero();
    let mut i: usize = 0;
    while i < n
        invariant
            i <= n == ring@.len(),
            computes(*f),
            total == corner_sum(*f, cage@, ring@, i as int),
        decreases n - i,
    {
        total = add_vectors(f, total, vertex(cage, ring[i]));
        i += 1;
    }
    assert(ring@ == ring_of(cage@, face));
    multiply_vector(f, total, over(f, ONE, count(n)))
}

/// The sum of the points of the first `n` of some faces.
pub open spec fn face_sum<F: Fn(Op, u64, u64) -> u64>(
    f: F,
    c: CageView,
    faces: Seq<u32>,
    n: int,
) -> Vec3
    decreases n,
{
    if n <= 0 {
        Vec3::of(ZERO, ZERO, ZERO)
    } else {
        arith::vector_sum(f, face_sum(f, c, faces, n - 1), face_point(f, c, faces[n - 1]))
    }
}

fn sum_faces<F: Fn(Op, u64, u64) -> u64>(cage: &SubdivCage, faces: &Vec<u32>, f: &F) -> (r: Vec3)
    requires
        computes(*f),
    ensures
        r == face_sum(*f, cage@, faces@, faces@.len() as int),
{
    let n: usize = faces.len();
    let mut total: Vec3 = Vec3::zero();
    let mut i: usize = 0;
    while i < n
        invariant
            i <= n == faces@.len(),
            computes(*f),
            total == face_sum(*f, cage@, faces@, i as int),
        decreases n - i,
    {
        total = add_vectors(f, total, find_face_point(cage, faces[i], f));
        i += 1;
    }
    total
}

/// The middle between two vertices.
pub open spec fn middle<F: Fn(Op, u64, u64) -> u64>(f: F, c: CageView, a: u32, b: u32) -> Vec3 {
    arith::vector_multiple(f, arith::vector_sum(f, vertex_at(c, a), vertex_at(c, b)), HALF)
}

fn find_middle<F: Fn(Op, u64, u64) -> u64>(cage: &SubdivCage, a: u32, b: u32, f: &F) -> (r: Vec3)
    requires
        computes(*f),
    ensures
        r == middle(*f, cage@, a, b),
{
    multiply_vector(f, add_vectors(f, vertex(cage, a), vertex(cage, b)), HALF)
}

/// The sum of the middles of the first `n` of some edges.
pub open spec fn middle_sum<F: Fn(Op, u64, u64) -> u64>(
    f: F,
    c: CageView,
    edges: Seq<EdgeKey>,
    n: int,
) -> Vec3
    decreases n,
{
    if n <= 0 {
        Vec3::of(ZERO, ZERO, ZERO)
    } else {
        arith::vector_sum(
            f,
            middle_sum(f, c, edges, n - 1),
            middle(f, c, edges[n - 1].0, edges[n - 1].1),
        )
    }
}

fn sum_middles<F: Fn(Op, u64, u64) -> u64>(cage: &SubdivCage, edges: &Vec<EdgeKey>, f: &F) -> (r:
    Vec3)
    requires
        computes(*f),
    ensures
        r == middle_sum(*f, cage@, edges@, edges@.len() as int),
{
    let n: usize = edges.len();
    let mut total: Vec3 = Vec3::zero();
    let mut i: usize = 0;
    while i < n
        invariant
            i <= n == edges@.len(),
            computes(*f),
            total == middle_sum(*f, cage@, edges@, i as int),
        decreases n - i,
    {
        let e: EdgeKey = edges[i];
        total = add_vectors(f, total, find_middle(cage, e.0, e.1, f));
        i += 1;
    }
    total
}

/// Part of the way from one point to another.
pub open spec fn towards<F: Fn(Op, u64, u64) -> u64>(f: F, a: Vec3, b: Vec3, t: u64) -> Vec3 {
    arith::vector_sum(f, a, arith::vector_multiple(f, arith::vector_difference(f, b, a), t))
}

fn go_towards<F: Fn(Op, u64, u64) -> u64>(f: &F, a: Vec3, b: Vec3, t: u64) -> (r: Vec3)
    requires
        computes(*f),
    ensures
        r == towards(*f, a, b, t),
{
    add_vectors(f, a, multiply_vector(f, subtract_vectors(f, b, a), t))
}

/// No fewer than one.
pub open spec fn at_least_one(n: nat) -> nat {
    if n == 0 {
        1
    } else {
        n
    }
}

/// The smooth point of a vertex of `n` edges: the mean of the points of its faces, twice
/// the mean of the middles of its edges, and `n - 3` of the vertex, over `n`.
pub open spec fn smooth_point<F: Fn(Op, u64, u64) -> u64>(
    f: F,
    c: CageView,
    v: u32,
    edges: Seq<EdgeKey>,
    faces: Seq<u32>,
) -> Vec3 {
    let n = arith::counted(at_least_one(edges.len()) as int);
    let around = arith::vector_multiple(
        f,
        face_sum(f, c, faces, faces.len() as int),
        reciprocal(f, arith::counted(at_least_one(faces.len()) as int)),
    );
    let along = arith::vector_multiple(
        f,
        middle_sum(f, c, edges, edges.len() as int),
        reciprocal(f, n),
    );
    arith::vector_multiple(
        f,
        arith::vector_sum(
            f,
            arith::vector_sum(f, around, arith::vector_multiple(f, along, TWO)),
            arith::vector_multiple(f, vertex_at(c, v), arith::difference(f, n, THREE)),
        ),
        reciprocal(f, n),
    )
}

fn find_smooth_point<F: Fn(Op, u64, u64) -> u64>(
    cage: &SubdivCage,
    v: u32,
    edges: &Vec<EdgeKey>,
    faces: &Vec<u32>,
    f: &F,
) -> (r: Vec3)
    requires
        computes(*f),
    ensures
        r == smooth_point(*f, cage@, v, edges@, faces@),
{
    let ne: usize = if edges.len() == 0 {
        1
    } else {
        edges.len()
    };
    let nf: usize = if faces.len() == 0 {
        1
    } else {
        faces.len()
    };
    let n: u64 = count(ne);
    let part: u64 = over(f, ONE, n);
    let around: Vec3 = multiply_vector(f, sum_faces(cage, faces, f), over(f, ONE, count(nf)));
    let along: Vec3 = multiply_vector(f, sum_middles(cage, edges, f), part);
    let own: Vec3 = multiply_vector(f, vertex(cage, v), minus(f, n, THREE));
    let all: Vec3 = add_vectors(f, add_vectors(f, around, multiply_vector(f, along, TWO)), own);
    multiply_vector(f, all, part)
}

/// The crease point of a vertex: six of it and one of each neighbour, over eight.
pub open spec fn crease_point<F: Fn(Op, u64, u64) -> u64>(
    f: F,
    c: CageView,
    v: u32,
    a: u32,
    b: u32,
) -> Vec3 {
    arith::vector_multiple(
        f,
        arith::vector_sum(
            f,
            arith::vector_sum(
                f,
                arith::vector_multiple(f, vertex_at(c, v), SIX),
                vertex_at(c, a),
            ),
            vertex_at(c, b),
        ),
        EIGHTH,
    )
}

fn find_crease_point<F: Fn(Op, u64, u64) -> u64>(
    cage: &SubdivCage,
    v: u32,
    a: u32,
    b: u32,
    f: &F,
) -> (r: Vec3)
    requires
        computes(*f),
    ensures
        r == crease_point(*f, cage@, v, a, b),
{
    let six: Vec3 = multiply_vector(f, vertex(cage, v), SIX);
    let all: Vec3 = add_vectors(f, add_vectors(f, six, vertex(cage, a)), vertex(cage, b));
    multiply_vector(f, all, EIGHTH)
}

/// The smooth point of an edge: the mean of its ends and of the points of its faces.
pub open spec fn edge_point<F: Fn(Op, u64, u64) -> u64>(
    f: F,
    c: CageView,
    a: u32,
    b: u32,
    faces: Seq<u32>,
) -> Vec3 {
    arith::vector_multiple(
        f,
        arith::vector_sum(
            f,
            arith::vector_sum(f, vertex_at(c, a), vertex_at(c, b)),
            face_sum(f, c, faces, faces.len() as int),
        ),
        reciprocal(f, arith::sum(f, TWO, arith::counted(faces.len() as int))),
    )
}

/// Where a rule places its point.
pub open spec fn rule_point<F: Fn(Op, u64, u64) -> u64>(f: F, c: CageView, rule: RuleView) -> Vec3 {
    match rule {
        RuleView::Face(i) => face_point(f, c, i),
        RuleView::Middle(a, b) => middle(f, c, a, b),
        RuleView::Edge { a, b, faces, sharpness } => {
            let p = edge_point(f, c, a, b, faces);
            match sharpness {
                Some(s) => towards(f, p, middle(f, c, a, b), double::lesser(s, ONE)),
                None => p,
            }
        },
        RuleView::Keep(v) => vertex_at(c, v),
        RuleView::Crease { v, a, b } => crease_point(f, c, v, a, b),
        RuleView::Blend { v, a, b, sharp, edges, faces } => {
            let mean = arith::product(f, arith::sum(f, sharp.0, sharp.1), HALF);
            if double::at_most(ONE, mean) {
                crease_point(f, c, v, a, b)
            } else {
                towards(
                    f,
                    smooth_point(f, c, v, edges, faces),
                    crease_point(f, c, v, a, b),
                    mean,
                )
            }
        },
        RuleView::Smooth { v, edges, faces, sharpness } => {
            let p = smooth_point(f, c, v, edges, faces);
            match sharpness {
                Some(s) => towards(f, p, vertex_at(c, v), double::lesser(s, ONE)),
                None => p,
            }
        },
    }
}

/// Where a rule places its point.
pub fn place_point<F: Fn(Op, u64, u64) -> u64>(cage: &SubdivCage, rule: &PointRule, f: &F) -> (r:
    Vec3)
    requires
        computes(*f),
    ensures
        r == rule_point(*f, cage@, rule@),
{
    match rule {
        PointRule::Face(i) => find_face_point(cage, *i, f),
        PointRule::Middle(a, b) => find_middle(cage, *a, *b, f),
        PointRule::Edge { a, b, faces, sharpness } => {
            let ends: Vec3 = add_vectors(f, vertex(cage, *a), vertex(cage, *b));
            let all: Vec3 = add_vectors(f, ends, sum_faces(cage, faces, f));
            let part: u64 = over(f, ONE, plus(f, TWO, count(faces.len())));
            let p: Vec3 = multiply_vector(f, all, part);
            match sharpness {
                Some(s) => go_towards(
                    f,
                    p,
                    find_middle(cage, *a, *b, f),
                    double::smaller_of(*s, ONE),
                ),
                None => p,
            }
        },
        PointRule::Keep(v) => vertex(cage, *v),
        PointRule::Crease { v, a, b } => find_crease_point(cage, *v, *a, *b, f),
        PointRule::Blend { v, a, b, sharp, edges, faces } => {
            let mean: u64 = times(f, plus(f, sharp.0, sharp.1), HALF);
            let crease: Vec3 = find_crease_point(cage, *v, *a, *b, f);
            if double::less_or_equal(ONE, mean) {
                crease
            } else {
                go_towards(f, find_smooth_point(cage, *v, edges, faces, f), crease, mean)
            }
        },
        PointRule::Smooth { v, edges, faces, sharpness } => {
            let p: Vec3 = find_smooth_point(cage, *v, edges, faces, f);
            match sharpness {
                Some(s) => go_towards(f, p, vertex(cage, *v), double::smaller_of(*s, ONE)),
                None => p,
            }
        },
    }
}

} // verus!
