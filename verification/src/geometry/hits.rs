//! Where rays meet the triangles of a mesh, and the surface parameters there.

use crate::arith;
use crate::arith::{
    add_vectors, computes, cross_vectors, dot_vectors, measure_vector, minus, multiply_vector, over, plus,
    subtract_vectors, times, Op,
};
use crate::double;
use crate::geometry::mesh::{PolygonMesh, PolygonMeshView, Single2};
use crate::geometry::normals;
use crate::geometry::normals::widen_triple;
use crate::math::{Vec3, HALF, ONE, ZERO};
use vstd::prelude::*;

verus! {

/// 1e-14, below which a triangle is seen edge on.
pub const FLAT: u64 = 0x3d06_849b_86a1_2b9b;

/// 1e-9, below which a hit is the surface that the ray starts from.
pub const NEAR: u64 = 0x3e11_2e0b_e826_d695;

/// 1e-18, below which a triangle has no area.
pub const SLIVER: u64 = 0x3c32_725d_d1d2_43ac;

/// A ray as it is in the space of a mesh: its direction need not be a unit. `time` says how
/// far the shutter is open.
#[derive(Clone, Copy, Debug, PartialEq, Eq, Structural)]
pub struct LocalRay {
    pub origin: Vec3,
    pub direction: Vec3,
    pub time: u64,
}

/// A hit: how far along the ray, and where on the triangle.
#[derive(Clone, Copy, Debug, PartialEq, Eq, Structural)]
pub struct TriangleHit {
    pub t: u64,
    pub u: u64,
    pub v: u64,
}

/// A vertex at a shutter time: on its way to where it is at shutter close, where it moves.
pub open spec fn vertex_at<F: Fn(Op, u64, u64) -> u64>(
    f: F,
    m: PolygonMeshView,
    i: int,
    time: u64,
) -> Vec3 {
    let a = normals::widened_triple(m.positions[i]);
    match m.positions1 {
        Some(p) if double::below(ZERO, time) => arith::vector_sum(
            f,
            a,
            arith::vector_multiple(
                f,
                arith::vector_difference(f, normals::widened_triple(p[i]), a),
                time,
            ),
        ),
        _ => a,
    }
}

/// Where a ray meets the triangle of three points before `t_max`, by the method of Möller
/// and Trumbore.
pub open spec fn triangle_hit<F: Fn(Op, u64, u64) -> u64>(
    f: F,
    ray: LocalRay,
    v0: Vec3,
    v1: Vec3,
    v2: Vec3,
    t_max: u64,
) -> Option<TriangleHit> {
    let e1 = arith::vector_difference(f, v1, v0);
    let e2 = arith::vector_difference(f, v2, v0);
    let p = arith::cross_product(f, ray.direction, e2);
    let det = arith::dot_product(f, e1, p);
    let inverse = arith::quotient(f, ONE, det);
    let from = arith::vector_difference(f, ray.origin, v0);
    let u = arith::product(f, arith::dot_product(f, from, p), inverse);
    let q = arith::cross_product(f, from, e1);
    let v = arith::product(f, arith::dot_product(f, ray.direction, q), inverse);
    let t = arith::product(f, arith::dot_product(f, e2, q), inverse);
    if double::below(double::magnitude(det), FLAT) {
        None
    } else if !(double::at_most(ZERO, u) && double::at_most(u, ONE)) {
        None
    } else if double::below(v, ZERO) || double::below(ONE, arith::sum(f, u, v)) {
        None
    } else if double::below(NEAR, t) && double::below(t, t_max) {
        Some(TriangleHit { t, u, v })
    } else {
        None
    }
}

/// Whether a mesh has a triangle, with the vertices that it names.
pub open spec fn has_triangle(m: PolygonMeshView, tri: int) -> bool {
    &&& 0 <= tri
    &&& 3 * tri + 3 <= m.indices.len()
    &&& forall|k: int| 3 * tri <= k < 3 * tri + 3 ==> (#[trigger] m.indices[k]) < m.positions.len()
    &&& m.positions1 matches Some(p) ==> p.len() == m.positions.len()
}

impl PolygonMesh {
    /// A vertex at a shutter time.
    pub fn vertex_at<F: Fn(Op, u64, u64) -> u64>(&self, i: u32, time: u64, f: &F) -> (r: Vec3)
        requires
            computes(*f),
            i < self@.positions.len(),
            self@.positions1 matches Some(p) ==> p.len() == self@.positions.len(),
        ensures
            r == vertex_at(*f, self@, i as int, time),
    {
        let a: Vec3 = widen_triple(self.positions[i as usize]);
        match &self.positions1 {
            Some(p) => {
                if double::less(ZERO, time) {
                    let b: Vec3 = widen_triple(p[i as usize]);
                    add_vectors(f, a, multiply_vector(f, subtract_vectors(f, b, a), time))
                } else {
                    a
                }
            },
            None => a,
        }
    }

    /// Where a ray meets a triangle before `t_max`.
    pub fn intersect_triangle<F: Fn(Op, u64, u64) -> u64>(
        &self,
        ray: &LocalRay,
        tri: u32,
        t_max: u64,
        f: &F,
    ) -> (r: Option<TriangleHit>)
        requires
            computes(*f),
            has_triangle(self@, tri as int),
        ensures
            r == triangle_hit(
                *f,
                *ray,
                vertex_at(*f, self@, self@.indices[3 * tri] as int, ray.time),
                vertex_at(*f, self@, self@.indices[3 * tri + 1] as int, ray.time),
                vertex_at(*f, self@, self@.indices[3 * tri + 2] as int, ray.time),
                t_max,
            ),
    {
        let n: usize = self.indices.len();
        let k: usize = 3 * tri as usize;
        assert(self@.indices[3 * tri] < self@.positions.len());
        assert(self@.indices[3 * tri + 1] < self@.positions.len());
        assert(self@.indices[3 * tri + 2] < self@.positions.len());
        let v0: Vec3 = self.vertex_at(self.indices[k], ray.time, f);
        let e1: Vec3 = subtract_vectors(f, self.vertex_at(self.indices[k + 1], ray.time, f), v0);
        let e2: Vec3 = subtract_vectors(f, self.vertex_at(self.indices[k + 2], ray.time, f), v0);
        let p: Vec3 = cross_vectors(f, ray.direction, e2);
        let det: u64 = dot_vectors(f, e1, p);
        if double::less(double::absolute(det), FLAT) {
            return None;
        }
        let inverse: u64 = over(f, ONE, det);
        let from: Vec3 = subtract_vectors(f, ray.origin, v0);
        let u: u64 = times(f, dot_vectors(f, from, p), inverse);
        if !(double::less_or_equal(ZERO, u) && double::less_or_equal(u, ONE)) {
            return None;
        }
        let q: Vec3 = cross_vectors(f, from, e1);
        let v: u64 = times(f, dot_vectors(f, ray.direction, q), inverse);
        if double::less(v, ZERO) || double::less(ONE, plus(f, u, v)) {
            return None;
        }
        let t: u64 = times(f, dot_vectors(f, e2, q), inverse);
        if double::less(NEAR, t) && double::less(t, t_max) {
            Some(TriangleHit { t, u, v })
        } else {
            None
        }
    }
}

// ---- surface parameters ----------------------------------------------------

/// A pair of surface parameters, and how much they change per unit of length.
#[derive(Clone, Copy, Debug, PartialEq, Eq, Structural)]
pub struct SurfacePoint {
    pub s: u64,
    pub t: u64,
    pub density: u64,
}

/// Three numbers by their weights.
pub open spec fn weighed<F: Fn(Op, u64, u64) -> u64>(
    f: F,
    a: u32,
    b: u32,
    c: u32,
    w: u64,
    u: u64,
    v: u64,
) -> u64 {
    arith::sum(
        f,
        arith::sum(
            f,
            arith::product(f, double::widened(a), w),
            arith::product(f, double::widened(b), u),
        ),
        arith::product(f, double::widened(c), v),
    )
}

fn weigh<F: Fn(Op, u64, u64) -> u64>(f: &F, a: u32, b: u32, c: u32, w: u64, u: u64, v: u64) -> (r:
    u64)
    requires
        computes(*f),
    ensures
        r == weighed(*f, a, b, c, w, u, v),
{
    plus(
        f,
        plus(f, times(f, double::widen(a), w), times(f, double::widen(b), u)),
        times(f, double::widen(c), v),
    )
}

/// The difference of two singles, in single precision.
pub open spec fn single_difference<F: Fn(Op, u64, u64) -> u64>(f: F, a: u32, b: u32) -> u64 {
    double::widened(
        double::narrowed(arith::difference(f, double::widened(a), double::widened(b))),
    )
}

pub fn subtract_singles<F: Fn(Op, u64, u64) -> u64>(f: &F, a: u32, b: u32) -> (r: u64)
    requires
        computes(*f),
    ensures
        r == single_difference(*f, a, b),
{
    double::widen(double::narrow(minus(f, double::widen(a), double::widen(b))))
}

/// The area that a triangle has among the surface parameters.
pub open spec fn parameter_area<F: Fn(Op, u64, u64) -> u64>(
    f: F,
    a: Single2,
    b: Single2,
    c: Single2,
) -> u64 {
    arith::product(
        f,
        HALF,
        double::magnitude(
            arith::difference(
                f,
                arith::product(f, single_difference(f, b.s, a.s), single_difference(f, c.t, a.t)),
                arith::product(f, single_difference(f, c.s, a.s), single_difference(f, b.t, a.t)),
            ),
        ),
    )
}

/// The area of a triangle at rest.
pub open spec fn rest_area<F: Fn(Op, u64, u64) -> u64>(f: F, a: Vec3, b: Vec3, c: Vec3) -> u64 {
    arith::product(
        f,
        HALF,
        arith::vector_length(
            f,
            arith::cross_product(
                f,
                arith::vector_difference(f, b, a),
                arith::vector_difference(f, c, a),
            ),
        ),
    )
}

/// The surface parameters at a place on a triangle. The density is the root of how much
/// larger the triangle is among the parameters than it is; none for a triangle without
/// area.
pub open spec fn surface_point<F: Fn(Op, u64, u64) -> u64>(
    f: F,
    m: PolygonMeshView,
    st: Seq<Single2>,
    tri: int,
    u: u64,
    v: u64,
) -> SurfacePoint {
    let i0 = m.indices[3 * tri] as int;
    let i1 = m.indices[3 * tri + 1] as int;
    let i2 = m.indices[3 * tri + 2] as int;
    let w = arith::difference(f, arith::difference(f, ONE, u), v);
    let area = rest_area(
        f,
        normals::widened_triple(m.positions[i0]),
        normals::widened_triple(m.positions[i1]),
        normals::widened_triple(m.positions[i2]),
    );
    SurfacePoint {
        s: weighed(f, st[i0].s, st[i1].s, st[i2].s, w, u, v),
        t: weighed(f, st[i0].t, st[i1].t, st[i2].t, w, u, v),
        density: if double::below(SLIVER, area) {
            arith::value(
                f,
                Op::Root,
                arith::quotient(f, parameter_area(f, st[i0], st[i1], st[i2]), area),
                0,
            )
        } else {
            ZERO
        },
    }
}

impl PolygonMesh {
    /// The surface parameters at a place on a triangle, where the mesh has any.
    pub fn st_at<F: Fn(Op, u64, u64) -> u64>(&self, tri: u32, u: u64, v: u64, f: &F) -> (r: Option<
        SurfacePoint,
    >)
        requires
            computes(*f),
            has_triangle(self@, tri as int),
            self@.st matches Some(st) ==> st.len() == self@.positions.len(),
        ensures
            match self@.st {
                Some(st) => r == Some(surface_point(*f, self@, st, tri as int, u, v)),
                None => r is None,
            },
    {
        let st: &Vec<Single2> = match &self.st {
            Some(st) => st,
            None => {
                return None;
            },
        };
        let n: usize = self.indices.len();
        let k: usize = 3 * tri as usize;
        assert(self@.indices[3 * tri] < self@.positions.len());
        assert(self@.indices[3 * tri + 1] < self@.positions.len());
        assert(self@.indices[3 * tri + 2] < self@.positions.len());
        let i0: usize = self.indices[k] as usize;
        let i1: usize = self.indices[k + 1] as usize;
        let i2: usize = self.indices[k + 2] as usize;
        let (a, b, c): (Single2, Single2, Single2) = (st[i0], st[i1], st[i2]);
        let w: u64 = minus(f, minus(f, ONE, u), v);
        let turn: u64 = minus(
            f,
            times(f, subtract_singles(f, b.s, a.s), subtract_singles(f, c.t, a.t)),
            times(f, subtract_singles(f, c.s, a.s), subtract_singles(f, b.t, a.t)),
        );
        let flat: u64 = times(f, HALF, double::absolute(turn));
        let v0: Vec3 = widen_triple(self.positions[i0]);
        let e1: Vec3 = subtract_vectors(f, widen_triple(self.positions[i1]), v0);
        let e2: Vec3 = subtract_vectors(f, widen_triple(self.positions[i2]), v0);
        let area: u64 = times(f, HALF, measure_vector(f, cross_vectors(f, e1, e2)));
        let density: u64 = if double::less(SLIVER, area) {
            arith::compute(f, Op::Root, over(f, flat, area), 0)
        } else {
            ZERO
        };
        Some(
            SurfacePoint {
                s: weigh(f, a.s, b.s, c.s, w, u, v),
                t: weigh(f, a.t, b.t, c.t, w, u, v),
                density,
            },
        )
    }
}

} // verus!
