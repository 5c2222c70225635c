//! Placed meshes and sets of curves, and how rays meet them. A ray goes into the space of an
//! instance without a new length, so that distances along it are the same there and in the
//! world.

use crate::accel::bvh;
use crate::accel::bvh::Aabb;
use crate::arith;
use crate::arith::{
    add_vectors, computes, cross_vectors, divide_vector, dot_vectors, minus, multiply_vector,
    normalize_vector, over, plus, subtract_vectors, times, Op,
};
use crate::double;
use crate::geometry::curves::{CurveSegment, CurveSet};
use crate::geometry::hits;
use crate::geometry::hits::{subtract_singles, LocalRay, TriangleHit, NEAR};
use crate::geometry::mesh;
use crate::geometry::mesh::{box_corners, Mesh, PolygonMesh, PolygonMeshView};
use crate::geometry::normals;
use crate::geometry::normals::widen_triple;
use crate::geometry::sphere::SLIGHT;
use crate::geometry::strands;
use crate::geometry::strands::SegmentHit;
use crate::math::matrix;
use crate::math::matrix::Row;
use crate::math::point;
use crate::math::{Matrix4, Point3, Vec3, HALF, ONE, ZERO};
use crate::raytracer::intersection;
use crate::raytracer::intersection::Intersection;
use crate::raytracer::ray;
use crate::raytracer::ray::Ray;
use vstd::prelude::*;

verus! {

/// What is placed.
#[derive(Clone, Copy, Debug, PartialEq, Eq, Structural)]
pub enum GeomKind {
    Mesh,
    Curves,
}

/// A placed mesh or set of curves: which one, what it is made of, and where it stands. A
/// second transform is the one at shutter close.
#[derive(Clone, Copy, Debug, PartialEq, Eq, Structural)]
pub struct Instance {
    pub kind: GeomKind,
    pub mesh_id: u32,
    pub material_id: usize,
    pub transform: Matrix4,
    pub inverse: Matrix4,
    pub transform1: Option<Matrix4>,
    pub world_bounds: Aabb,
    /// How much lengths change on the whole.
    pub scale: u64,
}

/// A hit on an instance: how far along the ray of the world, on which triangle, the normal and
/// the surface parameters, how much those change per unit of length and in which directions,
/// and the tangent of a curve.
#[derive(Clone, Copy, Debug)]
pub struct MeshHit {
    pub t_param: u64,
    pub tri: u32,
    pub world_normal: Vec3,
    pub st: (u64, u64),
    pub st_density: u64,
    pub st_grad: (Vec3, Vec3),
    pub tangent: Vec3,
}

// ---- placing ---------------------------------------------------------------

/// A box grown by the places to which a transform moves points.
pub open spec fn grown_by<F: Fn(Op, u64, u64) -> u64>(f: F, b: Aabb, m: Matrix4, corners: Seq<Vec3>) -> Aabb
    decreases corners.len(),
{
    if corners.len() == 0 {
        b
    } else {
        let c = corners.last();
        let p = matrix::point_of(f, m, Point3::of(c.x, c.y, c.z));
        bvh::grown(grown_by(f, b, m, corners.drop_last()), Vec3::of(p.x, p.y, p.z))
    }
}

/// The corners of a box.
pub open spec fn corners_of(b: Aabb) -> Seq<Vec3> {
    Seq::new(8, |i: int| mesh::box_corner(b, i))
}

/// The box in the world around a box that is moved, at both ends of the shutter.
pub open spec fn world_box<F: Fn(Op, u64, u64) -> u64>(f: F, b: Aabb, m: Matrix4, m1: Option<Matrix4>) -> Aabb {
    let first = grown_by(f, bvh::box_around(seq![]), m, corners_of(b));
    match m1 {
        Some(n) => grown_by(f, first, n, corners_of(b)),
        None => first,
    }
}

fn grow_by<F: Fn(Op, u64, u64) -> u64>(b: &mut Aabb, m: &Matrix4, corners: &Vec<Vec3>, f: &F)
    requires
        computes(*f),
    ensures
        *final(b) == grown_by(*f, *old(b), *m, corners@),
{
    let n: usize = corners.len();
    let mut i: usize = 0;
    while i < n
        invariant
            i <= n == corners@.len(),
            computes(*f),
            *b == grown_by(*f, *old(b), *m, corners@.take(i as int)),
        decreases n - i,
    {
        let c: Vec3 = corners[i];
        let p: Point3 = m.transform_point(&Point3::new(c.x, c.y, c.z), f);
        b.grow_point(&Vec3::new(p.x, p.y, p.z));
        assert(corners@.take(i + 1).drop_last() =~= corners@.take(i as int));
        i += 1;
    }
    assert(corners@.take(n as int) =~= corners@);
}

/// The inverse of a transform, or the identity where it has none.
pub open spec fn inverse_or_identity<F: Fn(Op, u64, u64) -> u64>(f: F, m: Matrix4) -> Matrix4 {
    match matrix::inverse_of(f, m) {
        Some(n) => n,
        None => Matrix4::identity_of(),
    }
}

fn invert<F: Fn(Op, u64, u64) -> u64>(m: &Matrix4, f: &F) -> (r: Matrix4)
    requires
        computes(*f),
    ensures
        r == inverse_or_identity(*f, *m),
{
    match m.inverse(f) {
        Some(n) => n,
        None => Matrix4::identity(),
    }
}

/// Part of the way from one row to another.
pub open spec fn row_towards<F: Fn(Op, u64, u64) -> u64>(f: F, a: Row, b: Row, t: u64) -> Row {
    Row {
        x: arith::sum(f, a.x, arith::product(f, arith::difference(f, b.x, a.x), t)),
        y: arith::sum(f, a.y, arith::product(f, arith::difference(f, b.y, a.y), t)),
        z: arith::sum(f, a.z, arith::product(f, arith::difference(f, b.z, a.z), t)),
        w: arith::sum(f, a.w, arith::product(f, arith::difference(f, b.w, a.w), t)),
    }
}

fn lead_row<F: Fn(Op, u64, u64) -> u64>(a: &Row, b: &Row, t: u64, f: &F) -> (r: Row)
    requires
        computes(*f),
    ensures
        r == row_towards(*f, *a, *b, t),
{
    Row {
        x: plus(f, a.x, times(f, minus(f, b.x, a.x), t)),
        y: plus(f, a.y, times(f, minus(f, b.y, a.y), t)),
        z: plus(f, a.z, times(f, minus(f, b.z, a.z), t)),
        w: plus(f, a.w, times(f, minus(f, b.w, a.w), t)),
    }
}

/// Part of the way from one transform to another, entry by entry.
pub open spec fn towards<F: Fn(Op, u64, u64) -> u64>(f: F, m: Matrix4, n: Matrix4, t: u64) -> Matrix4 {
    Matrix4 {
        a: row_towards(f, m.a, n.a, t),
        b: row_towards(f, m.b, n.b, t),
        c: row_towards(f, m.c, n.c, t),
        d: row_towards(f, m.d, n.d, t),
    }
}

/// The inverse of the transform at a shutter time.
pub open spec fn inverse_at<F: Fn(Op, u64, u64) -> u64>(f: F, i: Instance, time: u64) -> Matrix4 {
    match i.transform1 {
        Some(n) if double::below(ZERO, time) => inverse_or_identity(
            f,
            towards(f, i.transform, n, time),
        ),
        _ => i.inverse,
    }
}

/// A ray in the space of an instance; its direction keeps its length.
pub open spec fn ray_inside<F: Fn(Op, u64, u64) -> u64>(f: F, i: Instance, r: Ray) -> Ray {
    let inverse = inverse_at(f, i, r.time);
    Ray {
        origin: matrix::point_of(f, inverse, r.origin),
        direction: matrix::vector_of(f, inverse, r.direction),
        time: r.time,
    }
}

impl Instance {
    /// A mesh or a set of curves with these bounds, at its place.
    pub fn build<F: Fn(Op, u64, u64) -> u64>(
        kind: GeomKind,
        mesh_id: u32,
        material_id: usize,
        transform: Matrix4,
        transform1: Option<Matrix4>,
        local_bounds: &Aabb,
        f: &F,
    ) -> (r: Instance)
        requires
            computes(*f),
        ensures
            r == (Instance {
                kind,
                mesh_id,
                material_id,
                transform,
                inverse: inverse_or_identity(*f, transform),
                transform1,
                world_bounds: world_box(*f, *local_bounds, transform, transform1),
                scale: matrix::scale_of(*f, transform),
            }),
    {
        let corners: Vec<Vec3> = box_corners(local_bounds);
        assert(corners@ =~= corners_of(*local_bounds));
        let mut world_bounds: Aabb = Aabb::empty();
        grow_by(&mut world_bounds, &transform, &corners, f);
        if let Some(n) = transform1 {
            grow_by(&mut world_bounds, &n, &corners, f);
        }
        Instance {
            kind,
            mesh_id,
            material_id,
            transform,
            inverse: invert(&transform, f),
            transform1,
            world_bounds,
            scale: transform.approx_scale(f),
        }
    }

    /// A mesh that stands still.
    pub fn new<F: Fn(Op, u64, u64) -> u64>(mesh_id: u32, material_id: usize, transform: Matrix4, mesh: &Mesh, f: &F) -> (r:
        Instance)
        requires
            computes(*f),
        ensures
            r.kind == GeomKind::Mesh && r.transform1 is None,
            r.mesh_id == mesh_id && r.material_id == material_id && r.transform == transform,
            r.inverse == inverse_or_identity(*f, transform),
            r.world_bounds == world_box(*f, mesh.local_bounds, transform, None),
            r.scale == matrix::scale_of(*f, transform),
    {
        Instance::build(
            GeomKind::Mesh,
            mesh_id,
            material_id,
            transform,
            None,
            &mesh.local_bounds,
            f,
        )
    }

    fn find_inverse<F: Fn(Op, u64, u64) -> u64>(&self, time: u64, f: &F) -> (r: Matrix4)
        requires
            computes(*f),
        ensures
            r == inverse_at(*f, *self, time),
    {
        match &self.transform1 {
            Some(n) => {
                if double::less(ZERO, time) {
                    let m: Matrix4 = Matrix4 {
                        a: lead_row(&self.transform.a, &n.a, time, f),
                        b: lead_row(&self.transform.b, &n.b, time, f),
                        c: lead_row(&self.transform.c, &n.c, time, f),
                        d: lead_row(&self.transform.d, &n.d, time, f),
                    };
                    invert(&m, f)
                } else {
                    self.inverse
                }
            },
            None => self.inverse,
        }
    }

    fn bring_inside<F: Fn(Op, u64, u64) -> u64>(&self, inverse: &Matrix4, r: &Ray, f: &F) -> (s: Ray)
        requires
            computes(*f),
            *inverse == inverse_at(*f, *self, r.time),
        ensures
            s == ray_inside(*f, *self, *r),
    {
        Ray {
            origin: inverse.transform_point(&r.origin, f),
            direction: inverse.transform_vec(&r.direction, f),
            time: r.time,
        }
    }
}

// ---- what a hit on a triangle is --------------------------------------------

/// A corner of a triangle.
pub open spec fn corner_index(m: PolygonMeshView, tri: int, k: int) -> int {
    m.indices[3 * tri + k] as int
}

/// The normal at a place on a triangle: between the normals of its corners, where there are
/// any and it does not move; else at right angles to it.
pub open spec fn normal_on<F: Fn(Op, u64, u64) -> u64>(
    f: F,
    m: PolygonMeshView,
    tri: int,
    u: u64,
    v: u64,
    time: u64,
) -> Vec3 {
    let (a, b, c) = (corner_index(m, tri, 0), corner_index(m, tri, 1), corner_index(m, tri, 2));
    match m.normals {
        Some(n) if m.positions1 is None => {
            let (na, nb) = (normals::widened_triple(n[a]), normals::widened_triple(n[b]));
            let nc = normals::widened_triple(n[c]);
            let w = arith::difference(f, arith::difference(f, ONE, u), v);
            arith::unit(
                f,
                arith::vector_sum(
                    f,
                    arith::vector_sum(
                        f,
                        arith::vector_multiple(f, na, w),
                        arith::vector_multiple(f, nb, u),
                    ),
                    arith::vector_multiple(f, nc, v),
                ),
            )
        },
        _ => {
            let v0 = hits::vertex_at(f, m, a, time);
            let e1 = arith::vector_difference(f, hits::vertex_at(f, m, b, time), v0);
            let e2 = arith::vector_difference(f, hits::vertex_at(f, m, c, time), v0);
            arith::unit(f, arith::cross_product(f, e1, e2))
        },
    }
}

/// The directions in which the surface parameters of a triangle grow, by how much they do; none
/// where there are no parameters or no area.
pub open spec fn gradients<F: Fn(Op, u64, u64) -> u64>(f: F, m: PolygonMeshView, tri: int) -> Option<(Vec3, Vec3)> {
    let (a, b, c) = (corner_index(m, tri, 0), corner_index(m, tri, 1), corner_index(m, tri, 2));
    let p0 = normals::widened_triple(m.positions[a]);
    let e1 = arith::vector_difference(f, normals::widened_triple(m.positions[b]), p0);
    let e2 = arith::vector_difference(f, normals::widened_triple(m.positions[c]), p0);
    let n = arith::cross_product(f, e1, e2);
    let n2 = arith::dot_product(f, n, n);
    let d1 = arith::vector_part(f, arith::cross_product(f, e2, n), n2);
    let d2 = arith::vector_part(f, arith::cross_product(f, e1, n), double::negated(n2));
    match m.st {
        Some(st) if !double::below(n2, SLIGHT) => {
            let s1 = hits::single_difference(f, st[b].s, st[a].s);
            let t1 = hits::single_difference(f, st[b].t, st[a].t);
            let s2 = hits::single_difference(f, st[c].s, st[a].s);
            let t2 = hits::single_difference(f, st[c].t, st[a].t);
            Some(
                (arith::vector_sum(
                    f,
                    arith::vector_multiple(f, d1, s1),
                    arith::vector_multiple(f, d2, s2),
                ), arith::vector_sum(
                    f,
                    arith::vector_multiple(f, d1, t1),
                    arith::vector_multiple(f, d2, t2),
                )),
            )
        },
        _ => None,
    }
}

/// Whether a mesh has a triangle, and normals and parameters for its vertices where it has any.
pub open spec fn is_furnished(m: PolygonMeshView, tri: int) -> bool {
    &&& hits::has_triangle(m, tri)
    &&& m.normals matches Some(n) ==> n.len() == m.positions.len()
    &&& m.st matches Some(st) ==> st.len() == m.positions.len()
}

impl PolygonMesh {
    /// The normal at a place on a triangle.
    pub fn local_normal<F: Fn(Op, u64, u64) -> u64>(&self, tri: u32, u: u64, v: u64, time: u64, f: &F) -> (r: Vec3)
        requires
            computes(*f),
            is_furnished(self@, tri as int),
        ensures
            r == normal_on(*f, self@, tri as int, u, v, time),
    {
        let len: usize = self.indices.len();
        let k: usize = 3 * tri as usize;
        assert(self@.indices[3 * tri] < self@.positions.len());
        assert(self@.indices[3 * tri + 1] < self@.positions.len());
        assert(self@.indices[3 * tri + 2] < self@.positions.len());
        let (a, b, c): (u32, u32, u32) = (self.indices[k], self.indices[k + 1], self.indices[k + 2]);
        let still: bool = match &self.positions1 {
            Some(_) => false,
            None => true,
        };
        if still {
            if let Some(n) = &self.normals {
                let na: Vec3 = widen_triple(n[a as usize]);
                let nb: Vec3 = widen_triple(n[b as usize]);
                let nc: Vec3 = widen_triple(n[c as usize]);
                let w: u64 = minus(f, minus(f, ONE, u), v);
                return normalize_vector(
                    f,
                    add_vectors(
                        f,
                        add_vectors(f, multiply_vector(f, na, w), multiply_vector(f, nb, u)),
                        multiply_vector(f, nc, v),
                    ),
                );
            }
        }
        let v0: Vec3 = self.vertex_at(a, time, f);
        let e1: Vec3 = subtract_vectors(f, self.vertex_at(b, time, f), v0);
        let e2: Vec3 = subtract_vectors(f, self.vertex_at(c, time, f), v0);
        normalize_vector(f, cross_vectors(f, e1, e2))
    }

    /// The directions in which the surface parameters of a triangle grow.
    pub fn st_gradients<F: Fn(Op, u64, u64) -> u64>(&self, tri: u32, f: &F) -> (r: Option<(Vec3, Vec3)>)
        requires
            computes(*f),
            is_furnished(self@, tri as int),
        ensures
            r == gradients(*f, self@, tri as int),
    {
        let len: usize = self.indices.len();
        let k: usize = 3 * tri as usize;
        assert(self@.indices[3 * tri] < self@.positions.len());
        assert(self@.indices[3 * tri + 1] < self@.positions.len());
        assert(self@.indices[3 * tri + 2] < self@.positions.len());
        let a: usize = self.indices[k] as usize;
        let b: usize = self.indices[k + 1] as usize;
        let c: usize = self.indices[k + 2] as usize;
        match &self.st {
            Some(st) => {
                let p0: Vec3 = widen_triple(self.positions[a]);
                let e1: Vec3 = subtract_vectors(f, widen_triple(self.positions[b]), p0);
                let e2: Vec3 = subtract_vectors(f, widen_triple(self.positions[c]), p0);
                let n: Vec3 = cross_vectors(f, e1, e2);
                let n2: u64 = dot_vectors(f, n, n);
                if double::less(n2, SLIGHT) {
                    return None;
                }
                let d1: Vec3 = divide_vector(f, cross_vectors(f, e2, n), n2);
                let d2: Vec3 = divide_vector(f, cross_vectors(f, e1, n), double::negate(n2));
                let s1: u64 = subtract_singles(f, st[b].s, st[a].s);
                let t1: u64 = subtract_singles(f, st[b].t, st[a].t);
                let s2: u64 = subtract_singles(f, st[c].s, st[a].s);
                let t2: u64 = subtract_singles(f, st[c].t, st[a].t);
                Some(
                    (add_vectors(
                        f,
                        multiply_vector(f, d1, s1),
                        multiply_vector(f, d2, s2),
                    ), add_vectors(
                        f,
                        multiply_vector(f, d1, t1),
                        multiply_vector(f, d2, t2),
                    )),
                )
            },
            None => None,
        }
    }
}

/// A hit on a triangle of an instance, in the world.
pub open spec fn mesh_hit<F: Fn(Op, u64, u64) -> u64>(
    f: F,
    i: Instance,
    m: PolygonMeshView,
    time: u64,
    tri: u32,
    h: TriangleHit,
) -> MeshHit {
    let inverse = inverse_at(f, i, time);
    let n = normal_on(f, m, tri as int, h.u, h.v, time);
    let zero = Vec3::of(ZERO, ZERO, ZERO);
    let place = match m.st {
        Some(st) => Some(hits::surface_point(f, m, st, tri as int, h.u, h.v)),
        None => None,
    };
    MeshHit {
        t_param: h.t,
        tri,
        world_normal: arith::unit(f, matrix::normal_of(f, inverse, n)),
        st: match place {
            Some(p) => (p.s, p.t),
            None => (ZERO, ZERO),
        },
        st_density: match place {
            Some(p) => arith::quotient(f, p.density, i.scale),
            None => ZERO,
        },
        st_grad: match gradients(f, m, tri as int) {
            Some((s, t)) => (
                matrix::normal_of(f, i.inverse, s),
                matrix::normal_of(f, i.inverse, t),
            ),
            None => (zero, zero),
        },
        tangent: zero,
    }
}

/// A hit on a segment of an instance, in the world.
pub open spec fn curve_hit<F: Fn(Op, u64, u64) -> u64>(f: F, i: Instance, time: u64, h: SegmentHit) -> MeshHit {
    let zero = Vec3::of(ZERO, ZERO, ZERO);
    MeshHit {
        t_param: h.t,
        tri: 0,
        world_normal: arith::unit(f, matrix::normal_of(f, inverse_at(f, i, time), h.normal)),
        st: (HALF, h.v),
        st_density: ZERO,
        st_grad: (zero, zero),
        tangent: arith::unit(f, matrix::vector_of(f, i.transform, h.tangent)),
    }
}

impl Instance {
    /// A hit on a triangle, in the world.
    pub fn place_mesh_hit<F: Fn(Op, u64, u64) -> u64>(&self, m: &PolygonMesh, time: u64, tri: u32, h: &TriangleHit, f: &F) -> (
        r: MeshHit)
        requires
            computes(*f),
            is_furnished(m@, tri as int),
        ensures
            r == mesh_hit(*f, *self, m@, time, tri, *h),
    {
        let inverse: Matrix4 = self.find_inverse(time, f);
        let n: Vec3 = m.local_normal(tri, h.u, h.v, time, f);
        let (st, st_density): ((u64, u64), u64) = match m.st_at(tri, h.u, h.v, f) {
            Some(p) => ((p.s, p.t), over(f, p.density, self.scale)),
            None => ((ZERO, ZERO), ZERO),
        };
        let st_grad: (Vec3, Vec3) = match m.st_gradients(tri, f) {
            Some((s, t)) => (
                self.inverse.transform_normal(&s, f),
                self.inverse.transform_normal(&t, f),
            ),
            None => (Vec3::zero(), Vec3::zero()),
        };
        MeshHit {
            t_param: h.t,
            tri,
            world_normal: normalize_vector(f, inverse.transform_normal(&n, f)),
            st,
            st_density,
            st_grad,
            tangent: Vec3::zero(),
        }
    }

    /// A hit on a segment, in the world.
    pub fn place_curve_hit<F: Fn(Op, u64, u64) -> u64>(&self, time: u64, h: &SegmentHit, f: &F) -> (r: MeshHit)
        requires
            computes(*f),
        ensures
            r == curve_hit(*f, *self, time, *h),
    {
        let inverse: Matrix4 = self.find_inverse(time, f);
        MeshHit {
            t_param: h.t,
            tri: 0,
            world_normal: normalize_vector(f, inverse.transform_normal(&h.normal, f)),
            st: (HALF, h.v),
            st_density: ZERO,
            st_grad: (Vec3::zero(), Vec3::zero()),
            tangent: normalize_vector(f, self.transform.transform_vec(&h.tangent, f)),
        }
    }
}

/// A hit on an instance as the others are: by its distance, and with a normal that faces the
/// ray.
pub open spec fn faced<F: Fn(Op, u64, u64) -> u64>(f: F, h: MeshHit, r: Ray, material_id: usize) -> Intersection {
    let at = ray::along(f, r.origin, r.direction, h.t_param);
    let front = double::below(arith::dot_product(f, h.world_normal, r.direction), ZERO);
    let n = h.world_normal;
    let normal = if front {
        n
    } else {
        Vec3::of(double::negated(n.x), double::negated(n.y), double::negated(n.z))
    };
    Intersection {
        front_face: front,
        st: h.st,
        st_density: h.st_density,
        tangent: h.tangent,
        ..intersection::hit_at(f, point::distance(f, at, r.origin), at, normal, material_id)
    }
}

/// A hit on an instance as the others are.
pub fn to_intersection<F: Fn(Op, u64, u64) -> u64>(h: &MeshHit, r: &Ray, material_id: usize, f: &F) -> (s: Intersection)
    requires
        computes(*f),
    ensures
        s == faced(*f, *h, *r, material_id),
{
    let at: Point3 = r.at(h.t_param, f);
    let front: bool = double::less(dot_vectors(f, h.world_normal, r.direction), ZERO);
    let n: Vec3 = h.world_normal;
    let normal: Vec3 = if front {
        n
    } else {
        Vec3::new(double::negate(n.x), double::negate(n.y), double::negate(n.z))
    };
    let t: u64 = at.distance(&r.origin, f);
    Intersection::new(t, at, normal, material_id, f).with_front_face(front).with_st(
        h.st,
        h.st_density,
    ).with_tangent(h.tangent)
}

// ---- meeting meshes ----------------------------------------------------------

/// A mesh whose hierarchy is over its triangles, and whose normals and parameters are for its
/// vertices.
pub open spec fn is_ready(m: Mesh) -> bool {
    &&& bvh::is_tree(m.blas@)
    &&& m.blas@.order.len() == m.shape@.indices.len() / 3
    &&& forall|tri: int| 0 <= tri < m.shape@.indices.len() / 3 ==> #[trigger] is_furnished(m.shape@, tri)
}

/// A ray as a mesh takes it.
pub open spec fn local_of(r: Ray) -> LocalRay {
    LocalRay {
        origin: Vec3::of(r.origin.x, r.origin.y, r.origin.z),
        direction: r.direction,
        time: r.time,
    }
}

/// One over each component.
pub open spec fn reciprocals<F: Fn(Op, u64, u64) -> u64>(f: F, v: Vec3) -> Vec3 {
    Vec3::of(
        arith::quotient(f, ONE, v.x),
        arith::quotient(f, ONE, v.y),
        arith::quotient(f, ONE, v.z),
    )
}

/// Where a ray of the space of a mesh meets one of its triangles before a bound.
pub open spec fn triangle_met<F: Fn(Op, u64, u64) -> u64>(f: F, m: PolygonMeshView, r: LocalRay, tri: int, bound: u64) -> Option<
    TriangleHit,
> {
    hits::triangle_hit(
        f,
        r,
        hits::vertex_at(f, m, m.indices[3 * tri] as int, r.time),
        hits::vertex_at(f, m, m.indices[3 * tri + 1] as int, r.time),
        hits::vertex_at(f, m, m.indices[3 * tri + 2] as int, r.time),
        bound,
    )
}

/// Nothing is met before `t` in a slot of a hierarchy: its triangle is not, or a box around it
/// is missed within a bound that is no nearer.
pub open spec fn passed<F: Fn(Op, u64, u64) -> u64>(f: F, m: Mesh, r: Ray, t: u64, slot: int) -> bool {
    let b = m.blas@;
    let l = local_of(r);
    ||| triangle_met(f, m.shape@, l, b.order[slot] as int, t) is None
    ||| box_missed(f, b, r, t, slot)
}

/// A box around a slot is missed within a bound that is no nearer than `t`.
pub open spec fn box_missed<F: Fn(Op, u64, u64) -> u64>(f: F, b: bvh::BvhView, r: Ray, t: u64, slot: int) -> bool {
    let l = local_of(r);
    exists|i: int, bound: u64|
        {
            &&& #[trigger] bvh::entry(
                f,
                b.nodes[i].bounds,
                l.origin,
                reciprocals(f, l.direction),
                bound,
            ) is None
            &&& 0 <= i < b.nodes.len()
            &&& b.ranges[i].0 <= slot < b.ranges[i].1
            &&& bvh::no_farther(t, bound)
        }
}

/// A hit before a bound is the same hit before every bound beyond it, and there is none before
/// a bound that it is not nearer than.
proof fn bounds_cut<F: Fn(Op, u64, u64) -> u64>(f: F, m: PolygonMeshView, r: LocalRay, tri: int, a: u64, b: u64)
    requires
        bvh::no_farther(a, b),
    ensures
        triangle_met(f, m, r, tri, a) is Some ==> triangle_met(f, m, r, tri, b) == triangle_met(
            f,
            m,
            r,
            tri,
            a,
        ),
        triangle_met(f, m, r, tri, b) matches Some(h) ==> (double::below(h.t, a)
            ==> triangle_met(f, m, r, tri, a) == Some(h)),
        triangle_met(f, m, r, tri, a) matches Some(h) ==> double::below(h.t, a),
{
}

/// What is met of a mesh before `t_max`: a triangle such that nothing nearer is, or nothing.
pub open spec fn mesh_searched<F: Fn(Op, u64, u64) -> u64>(
    f: F,
    i: Instance,
    mesh: Mesh,
    r: Ray,
    t_max: u64,
    s: Option<MeshHit>,
) -> bool {
    let inside = ray_inside(f, i, r);
    match s {
        Some(hit) => triangle_met(
            f,
            mesh.shape@,
            local_of(inside),
            hit.tri as int,
            t_max,
        ) matches Some(h) && hit.tri < mesh.blas@.order.len() && hit == mesh_hit(
            f,
            i,
            mesh.shape@,
            r.time,
            hit.tri,
            h,
        ) && forall|slot: int|
            0 <= slot < mesh.blas@.order.len() ==> #[trigger] passed(
                f,
                mesh,
                inside,
                h.t,
                slot,
            ),
        None => forall|slot: int|
            0 <= slot < mesh.blas@.order.len() ==> #[trigger] passed(
                f,
                mesh,
                inside,
                t_max,
                slot,
            ),
    }
}

/// Whether a mesh is met before a limit: a triangle is, or each is passed.
pub open spec fn mesh_blocks<F: Fn(Op, u64, u64) -> u64>(
    f: F,
    i: Instance,
    mesh: Mesh,
    r: Ray,
    limit: u64,
    s: bool,
) -> bool {
    let inside = ray_inside(f, i, r);
    &&& s ==> exists|tri: int|
        0 <= tri < mesh.blas@.order.len() && #[trigger] triangle_met(
            f,
            mesh.shape@,
            local_of(inside),
            tri,
            limit,
        ) is Some
    &&& !s ==> forall|slot: int|
        0 <= slot < mesh.blas@.order.len() ==> #[trigger] passed(
            f,
            mesh,
            inside,
            limit,
            slot,
        )
}

impl Instance {
    /// Where a ray of the world meets a mesh before `t_max`: at a triangle such that nothing
    /// nearer is met.
    pub fn intersect_mesh<F: Fn(Op, u64, u64) -> u64>(&self, mesh: &Mesh, r: &Ray, t_max: u64, f: &F) -> (s: Option<MeshHit>)
        requires
            computes(*f),
            is_ready(*mesh),
        ensures
            mesh_searched(*f, *self, *mesh, *r, t_max, s),
    {
        let inverse: Matrix4 = self.find_inverse(r.time, f);
        let inside: Ray = self.bring_inside(&inverse, r, f);
        let l: LocalRay = LocalRay {
            origin: Vec3::new(inside.origin.x, inside.origin.y, inside.origin.z),
            direction: inside.direction,
            time: inside.time,
        };
        let d: Vec3 = inside.direction;
        let inv: Vec3 = Vec3::new(over(f, ONE, d.x), over(f, ONE, d.y), over(f, ONE, d.z));
        let n: usize = mesh.shape.indices.len() / 3;
        let shape: &PolygonMesh = &mesh.shape;
        let hit_box = |b: Aabb, t: u64| -> (e: Option<u64>)
            ensures
                e == bvh::entry(*f, b, l.origin, inv, t),
            { b.hit(&l.origin, &inv, t, f) };
        let hit_prim = |p: u32, t: u64| -> (e: Option<u64>)
            ensures
                p < n ==> e == time_of(triangle_met(*f, shape@, l, p as int, t)),
                p >= n ==> e is None,
            {
                if (p as usize) < n {
                    assert(is_furnished(shape@, p as int));
                    match shape.intersect_triangle(&l, p, t, f) {
                        Some(h) => Some(h.t),
                        None => None,
                    }
                } else {
                    None
                }
            };
        let found: Option<(u32, u64)> = mesh.blas.traverse(t_max, &hit_box, &hit_prim);
        let ghost b = mesh.blas@;
        let ghost nearest = bvh::reach(found, t_max);
        proof {
            assert forall|slot: int| 0 <= slot < b.order.len() implies #[trigger] passed(
                *f,
                *mesh,
                inside,
                nearest,
                slot,
            ) by {
                assert(bvh::looked_at(b, hit_box, hit_prim, nearest, slot));
                assert(b.order[slot] < n);
                if exists|bound: u64, e: Option<u64>|
                    {
                        &&& #[trigger] hit_prim.ensures((b.order[slot], bound), e)
                        &&& bvh::no_farther(nearest, bound)
                        &&& !(e is Some && double::below(e->0, nearest))
                    } {
                    let (bound, e) = choose|bound: u64, e: Option<u64>|
                        {
                            &&& #[trigger] hit_prim.ensures((b.order[slot], bound), e)
                            &&& bvh::no_farther(nearest, bound)
                            &&& !(e is Some && double::below(e->0, nearest))
                        };
                    bounds_cut(*f, shape@, l, b.order[slot] as int, nearest, bound);
                } else {
                    let (i, bound) = choose|i: int, bound: u64|
                        {
                            &&& #[trigger] hit_box.ensures((b.nodes[i].bounds, bound), None)
                            &&& 0 <= i < b.nodes.len()
                            &&& b.ranges[i].0 <= slot < b.ranges[i].1
                            &&& bvh::no_farther(nearest, bound)
                        };
                    assert(hit_box.ensures((b.nodes[i].bounds, bound), None));
                    assert(bvh::entry(*f, b.nodes[i].bounds, l.origin, inv, bound) is None);
                    assert(box_missed(*f, b, inside, nearest, slot));
                }
            }
        }
        match found {
            None => None,
            Some((tri, t)) => {
                proof {
                    let bound = choose|bound: u64|
                        {
                            &&& #[trigger] hit_prim.ensures((tri, bound), Some(t))
                            &&& double::below(t, bound)
                            &&& bvh::no_farther(bound, t_max)
                        };
                    assert(hit_prim.ensures((tri, bound), Some(t)));
                    assert(tri < n);
                    assert(is_furnished(shape@, tri as int));
                    bounds_cut(*f, shape@, l, tri as int, bound, t_max);
                }
                match shape.intersect_triangle(&l, tri, t_max, f) {
                    Some(h) => Some(self.place_mesh_hit(shape, r.time, tri, &h, f)),
                    None => None,
                }
            },
        }
    }

    /// Whether a ray of the world meets a mesh before a limit. Where it does, a triangle is met;
    /// where it does not, each is passed.
    pub fn mesh_occludes<F: Fn(Op, u64, u64) -> u64>(&self, mesh: &Mesh, r: &Ray, limit: u64, f: &F) -> (s: bool)
        requires
            computes(*f),
            is_ready(*mesh),
        ensures
            mesh_blocks(*f, *self, *mesh, *r, limit, s),
    {
        let inverse: Matrix4 = self.find_inverse(r.time, f);
        let inside: Ray = self.bring_inside(&inverse, r, f);
        let l: LocalRay = LocalRay {
            origin: Vec3::new(inside.origin.x, inside.origin.y, inside.origin.z),
            direction: inside.direction,
            time: inside.time,
        };
        let d: Vec3 = inside.direction;
        let inv: Vec3 = Vec3::new(over(f, ONE, d.x), over(f, ONE, d.y), over(f, ONE, d.z));
        let n: usize = mesh.shape.indices.len() / 3;
        let shape: &PolygonMesh = &mesh.shape;
        let hit_box = |b: Aabb, t: u64| -> (e: Option<u64>)
            ensures
                e == bvh::entry(*f, b, l.origin, inv, t),
            { b.hit(&l.origin, &inv, t, f) };
        let hit_prim = |p: u32, t: u64| -> (e: bool)
            ensures
                p < n ==> e == (triangle_met(*f, shape@, l, p as int, t) is Some),
                p >= n ==> !e,
            {
                if (p as usize) < n {
                    assert(is_furnished(shape@, p as int));
                    shape.intersect_triangle(&l, p, t, f).is_some()
                } else {
                    false
                }
            };
        let met: bool = mesh.blas.any_hit(limit, &hit_box, &hit_prim);
        proof {
            let b = mesh.blas@;
            if met {
                let slot = choose|slot: int|
                    0 <= slot < b.order.len() && hit_prim.ensures(
                        (#[trigger] b.order[slot], limit),
                        true,
                    );
                assert(triangle_met(*f, shape@, l, b.order[slot] as int, limit) is Some);
            } else {
                assert forall|slot: int| 0 <= slot < b.order.len() implies #[trigger] passed(
                    *f,
                    *mesh,
                    inside,
                    limit,
                    slot,
                ) by {
                    assert(bvh::all_denied(b, hit_box, hit_prim, limit, slot));
                    assert(b.order[slot] < n);
                    if !hit_prim.ensures((b.order[slot], limit), false) {
                        let i = choose|i: int|
                            {
                                &&& hit_box.ensures(((#[trigger] b.nodes[i]).bounds, limit), None)
                                &&& 0 <= i < b.nodes.len()
                                &&& b.ranges[i].0 <= slot < b.ranges[i].1
                            };
                        assert(bvh::entry(*f, b.nodes[i].bounds, l.origin, inv, limit) is None);
                        assert(box_missed(*f, b, inside, limit, slot));
                    }
                }
            }
        }
        met
    }
}

/// How far along the ray a hit is.
pub open spec fn time_of(h: Option<TriangleHit>) -> Option<u64> {
    match h {
        Some(h) => Some(h.t),
        None => None,
    }
}

// ---- meeting curves ----------------------------------------------------------

/// A set of curves whose hierarchy is over its segments.
pub open spec fn is_set_ready(c: CurveSet) -> bool {
    &&& bvh::is_tree(c.blas@)
    &&& c.blas@.order.len() == c.segments@.len()
}

/// A segment gives no hit before `t` when it is asked for one before a bound that is no nearer.
pub open spec fn segment_missed<F: Fn(Op, u64, u64) -> u64>(f: F, s: CurveSegment, r: Ray, t: u64) -> bool {
    exists|bound: u64|
        bvh::no_farther(t, bound) && !(#[trigger] strands::segment_hit(f, s, r, bound) matches Some(
            h,
        ) && double::below(h.t, t))
}

/// Nothing is met before `t` in a slot of a hierarchy.
pub open spec fn segment_passed<F: Fn(Op, u64, u64) -> u64>(f: F, c: CurveSet, r: Ray, t: u64, slot: int) -> bool {
    ||| segment_missed(f, c.segments@[c.blas@.order[slot] as int], r, t)
    ||| box_missed(f, c.blas@, r, t, slot)
}

/// A segment gives this hit when it is asked for one before a bound that lies beyond it and no
/// farther than `t_max`.
pub open spec fn segment_given<F: Fn(Op, u64, u64) -> u64>(f: F, s: CurveSegment, r: Ray, t_max: u64, h: SegmentHit) -> bool {
    exists|bound: u64|
        #[trigger] strands::segment_hit(f, s, r, bound) == Some(h) && double::below(h.t, bound)
            && bvh::no_farther(bound, t_max)
}

/// The bits behind those of a distance are those of a bound that lies beyond it, and no farther
/// than any other.
proof fn next_bound(t: u64, bound: u64)
    requires
        double::below(t, bound),
        double::below(NEAR, t),
    ensures
        t < 0x7ff0_0000_0000_0000,
        double::below(t, (t + 1) as u64),
        bvh::no_farther((t + 1) as u64, bound),
{
}

/// A hit on a segment is the same before the nearest bound beyond it.
proof fn nearest_bound<F: Fn(Op, u64, u64) -> u64>(f: F, s: CurveSegment, r: Ray, bound: u64, h: SegmentHit)
    requires
        strands::segment_hit(f, s, r, bound) == Some(h),
        double::below(h.t, bound),
    ensures
        double::below(NEAR, h.t),
        strands::segment_hit(f, s, r, (h.t + 1) as u64) == Some(h),
{
    next_bound(h.t, bound);
}

/// How far along the ray a hit is.
pub open spec fn time_on(h: Option<SegmentHit>) -> Option<u64> {
    match h {
        Some(h) => Some(h.t),
        None => None,
    }
}

/// What is met of a set of curves before `t_max`: a segment such that nothing nearer is, or
/// nothing.
pub open spec fn curves_searched<F: Fn(Op, u64, u64) -> u64>(
    f: F,
    i: Instance,
    set: CurveSet,
    r: Ray,
    t_max: u64,
    s: Option<MeshHit>,
) -> bool {
    let inside = ray_inside(f, i, r);
    match s {
        Some(hit) => exists|seg: int, h: SegmentHit|
            {
                &&& 0 <= seg < set.segments@.len()
                &&& #[trigger] segment_given(f, set.segments@[seg], inside, t_max, h)
                &&& hit == curve_hit(f, i, r.time, h)
                &&& forall|slot: int|
                    0 <= slot < set.blas@.order.len() ==> #[trigger] segment_passed(
                        f,
                        set,
                        inside,
                        h.t,
                        slot,
                    )
            },
        None => forall|slot: int|
            0 <= slot < set.blas@.order.len() ==> #[trigger] segment_passed(
                f,
                set,
                inside,
                t_max,
                slot,
            ),
    }
}

/// Whether a set of curves is met before a limit: a segment is, or each is passed.
pub open spec fn curves_block<F: Fn(Op, u64, u64) -> u64>(
    f: F,
    i: Instance,
    set: CurveSet,
    r: Ray,
    limit: u64,
    s: bool,
) -> bool {
    let inside = ray_inside(f, i, r);
    &&& s ==> exists|seg: int|
        0 <= seg < set.segments@.len() && strands::segment_hit(
            f,
            #[trigger] set.segments@[seg],
            inside,
            limit,
        ) is Some
    &&& !s ==> forall|slot: int|
        0 <= slot < set.blas@.order.len() ==> (strands::segment_hit(
            f,
            set.segments@[#[trigger] set.blas@.order[slot] as int],
            inside,
            limit,
        ) is None || box_missed(f, set.blas@, inside, limit, slot))
}

impl Instance {
    /// Where a ray of the world meets a set of curves before `t_max`: at a segment such that
    /// nothing nearer is met.
    pub fn intersect_curves<F: Fn(Op, u64, u64) -> u64>(&self, set: &CurveSet, r: &Ray, t_max: u64, f: &F) -> (s: Option<
        MeshHit,
    >)
        requires
            computes(*f),
            is_set_ready(*set),
        ensures
            curves_searched(*f, *self, *set, *r, t_max, s),
    {
        let inverse: Matrix4 = self.find_inverse(r.time, f);
        let inside: Ray = self.bring_inside(&inverse, r, f);
        let o: Vec3 = inside.origin.to_vec3();
        let d: Vec3 = inside.direction;
        let inv: Vec3 = Vec3::new(over(f, ONE, d.x), over(f, ONE, d.y), over(f, ONE, d.z));
        let n: usize = set.segments.len();
        let hit_box = |b: Aabb, t: u64| -> (e: Option<u64>)
            ensures
                e == bvh::entry(*f, b, o, inv, t),
            { b.hit(&o, &inv, t, f) };
        let hit_prim = |p: u32, t: u64| -> (e: Option<u64>)
            ensures
                p < n ==> e == time_on(
                    strands::segment_hit(*f, set.segments@[p as int], inside, t),
                ),
                p >= n ==> e is None,
            {
                if (p as usize) < n {
                    match set.intersect_segment(&inside, p, t, f) {
                        Some(h) => Some(h.t),
                        None => None,
                    }
                } else {
                    None
                }
            };
        let found: Option<(u32, u64)> = set.blas.traverse(t_max, &hit_box, &hit_prim);
        let ghost b = set.blas@;
        let ghost nearest = bvh::reach(found, t_max);
        proof {
            assert forall|slot: int| 0 <= slot < b.order.len() implies #[trigger] segment_passed(
                *f,
                *set,
                inside,
                nearest,
                slot,
            ) by {
                assert(bvh::looked_at(b, hit_box, hit_prim, nearest, slot));
                assert(b.order[slot] < n);
                if exists|bound: u64, e: Option<u64>|
                    {
                        &&& #[trigger] hit_prim.ensures((b.order[slot], bound), e)
                        &&& bvh::no_farther(nearest, bound)
                        &&& !(e is Some && double::below(e->0, nearest))
                    } {
                    let (bound, e) = choose|bound: u64, e: Option<u64>|
                        {
                            &&& #[trigger] hit_prim.ensures((b.order[slot], bound), e)
                            &&& bvh::no_farther(nearest, bound)
                            &&& !(e is Some && double::below(e->0, nearest))
                        };
                    let s = set.segments@[b.order[slot] as int];
                    assert(e == time_on(strands::segment_hit(*f, s, inside, bound)));
                    assert(segment_missed(*f, s, inside, nearest));
                } else {
                    let (i, bound) = choose|i: int, bound: u64|
                        {
                            &&& #[trigger] hit_box.ensures((b.nodes[i].bounds, bound), None)
                            &&& 0 <= i < b.nodes.len()
                            &&& b.ranges[i].0 <= slot < b.ranges[i].1
                            &&& bvh::no_farther(nearest, bound)
                        };
                    assert(hit_box.ensures((b.nodes[i].bounds, bound), None));
                    assert(bvh::entry(*f, b.nodes[i].bounds, o, inv, bound) is None);
                    assert(box_missed(*f, b, inside, nearest, slot));
                }
            }
        }
        match found {
            None => None,
            Some((seg, t)) => {
                let ghost met: Option<SegmentHit> = None;
                proof {
                    let bound = choose|bound: u64|
                        {
                            &&& #[trigger] hit_prim.ensures((seg, bound), Some(t))
                            &&& double::below(t, bound)
                            &&& bvh::no_farther(bound, t_max)
                        };
                    assert(hit_prim.ensures((seg, bound), Some(t)));
                    assert(seg < n);
                    let s = set.segments@[seg as int];
                    met = strands::segment_hit(*f, s, inside, bound);
                    nearest_bound(*f, s, inside, bound, met->0);
                    next_bound(t, bound);
                    assert(segment_given(*f, s, inside, t_max, met->0));
                }
                match set.intersect_segment(&inside, seg, t + 1, f) {
                    Some(h) => {
                        assert(met == Some(h));
                        Some(self.place_curve_hit(r.time, &h, f))
                    },
                    None => None,
                }
            },
        }
    }

    /// Whether a ray of the world meets a set of curves before a limit.
    pub fn curves_occlude<F: Fn(Op, u64, u64) -> u64>(&self, set: &CurveSet, r: &Ray, limit: u64, f: &F) -> (s: bool)
        requires
            computes(*f),
            is_set_ready(*set),
        ensures
            curves_block(*f, *self, *set, *r, limit, s),
    {
        let inverse: Matrix4 = self.find_inverse(r.time, f);
        let inside: Ray = self.bring_inside(&inverse, r, f);
        let o: Vec3 = inside.origin.to_vec3();
        let d: Vec3 = inside.direction;
        let inv: Vec3 = Vec3::new(over(f, ONE, d.x), over(f, ONE, d.y), over(f, ONE, d.z));
        let n: usize = set.segments.len();
        let hit_box = |b: Aabb, t: u64| -> (e: Option<u64>)
            ensures
                e == bvh::entry(*f, b, o, inv, t),
            { b.hit(&o, &inv, t, f) };
        let hit_prim = |p: u32, t: u64| -> (e: bool)
            ensures
                p < n ==> e == (strands::segment_hit(*f, set.segments@[p as int], inside, t)
                    is Some),
                p >= n ==> !e,
            {
                if (p as usize) < n {
                    set.intersect_segment(&inside, p, t, f).is_some()
                } else {
                    false
                }
            };
        let met: bool = set.blas.any_hit(limit, &hit_box, &hit_prim);
        proof {
            let b = set.blas@;
            if met {
                let slot = choose|slot: int|
                    0 <= slot < b.order.len() && hit_prim.ensures(
                        (#[trigger] b.order[slot], limit),
                        true,
                    );
                assert(strands::segment_hit(
                    *f,
                    set.segments@[b.order[slot] as int],
                    inside,
                    limit,
                ) is Some);
            } else {
                assert forall|slot: int| 0 <= slot < b.order.len() implies (strands::segment_hit(
                    *f,
                    set.segments@[#[trigger] b.order[slot] as int],
                    inside,
                    limit,
                ) is None || box_missed(*f, b, inside, limit, slot)) by {
                    assert(bvh::all_denied(b, hit_box, hit_prim, limit, slot));
                    if !hit_prim.ensures((b.order[slot], limit), false) {
                        let i = choose|i: int|
                            {
                                &&& hit_box.ensures(((#[trigger] b.nodes[i]).bounds, limit), None)
                                &&& 0 <= i < b.nodes.len()
                                &&& b.ranges[i].0 <= slot < b.ranges[i].1
                            };
                        assert(bvh::entry(*f, b.nodes[i].bounds, o, inv, limit) is None);
                        assert(box_missed(*f, b, inside, limit, slot));
                    }
                }
            }
        }
        met
    }
}

impl Instance {
    /// Where a ray of the world meets the instance before `t_max`.
    pub fn intersect<F: Fn(Op, u64, u64) -> u64>(
        &self,
        meshes: &Vec<Mesh>,
        curves: &Vec<CurveSet>,
        r: &Ray,
        t_max: u64,
        f: &F,
    ) -> (s: Option<MeshHit>)
        requires
            computes(*f),
            self.kind == GeomKind::Mesh ==> self.mesh_id < meshes@.len() && is_ready(
                meshes@[self.mesh_id as int],
            ),
            self.kind == GeomKind::Curves ==> self.mesh_id < curves@.len() && is_set_ready(
                curves@[self.mesh_id as int],
            ),
        ensures
            match self.kind {
                GeomKind::Mesh => mesh_searched(
                    *f,
                    *self,
                    meshes@[self.mesh_id as int],
                    *r,
                    t_max,
                    s,
                ),
                GeomKind::Curves => curves_searched(
                    *f,
                    *self,
                    curves@[self.mesh_id as int],
                    *r,
                    t_max,
                    s,
                ),
            },
    {
        match self.kind {
            GeomKind::Mesh => self.intersect_mesh(&meshes[self.mesh_id as usize], r, t_max, f),
            GeomKind::Curves => self.intersect_curves(&curves[self.mesh_id as usize], r, t_max, f),
        }
    }

    /// Whether a ray of the world meets the instance before a limit.
    pub fn occludes<F: Fn(Op, u64, u64) -> u64>(
        &self,
        meshes: &Vec<Mesh>,
        curves: &Vec<CurveSet>,
        r: &Ray,
        limit: u64,
        f: &F,
    ) -> (s: bool)
        requires
            computes(*f),
            self.kind == GeomKind::Mesh ==> self.mesh_id < meshes@.len() && is_ready(
                meshes@[self.mesh_id as int],
            ),
            self.kind == GeomKind::Curves ==> self.mesh_id < curves@.len() && is_set_ready(
                curves@[self.mesh_id as int],
            ),
        ensures
            match self.kind {
                GeomKind::Mesh => mesh_blocks(
                    *f,
                    *self,
                    meshes@[self.mesh_id as int],
                    *r,
                    limit,
                    s,
                ),
                GeomKind::Curves => curves_block(
                    *f,
                    *self,
                    curves@[self.mesh_id as int],
                    *r,
                    limit,
                    s,
                ),
            },
    {
        match self.kind {
            GeomKind::Mesh => self.mesh_occludes(&meshes[self.mesh_id as usize], r, limit, f),
            GeomKind::Curves => self.curves_occlude(&curves[self.mesh_id as usize], r, limit, f),
        }
    }

    /// A set of curves at its place.
    pub fn new_curves<F: Fn(Op, u64, u64) -> u64>(
        set_id: u32,
        material_id: usize,
        transform: Matrix4,
        transform1: Option<Matrix4>,
        set: &CurveSet,
        f: &F,
    ) -> (r: Instance)
        requires
            computes(*f),
        ensures
            r == (Instance {
                kind: GeomKind::Curves,
                mesh_id: set_id,
                material_id,
                transform,
                inverse: inverse_or_identity(*f, transform),
                transform1,
                world_bounds: world_box(*f, set.local_bounds, transform, transform1),
                scale: matrix::scale_of(*f, transform),
            }),
    {
        Instance::build(
            GeomKind::Curves,
            set_id,
            material_id,
            transform,
            transform1,
            &set.local_bounds,
            f,
        )
    }

    /// A mesh at its place, and where it is at shutter close.
    pub fn with_motion<F: Fn(Op, u64, u64) -> u64>(
        mesh_id: u32,
        material_id: usize,
        transform: Matrix4,
        transform1: Option<Matrix4>,
        mesh: &Mesh,
        f: &F,
    ) -> (r: Instance)
        requires
            computes(*f),
        ensures
            r == (Instance {
                kind: GeomKind::Mesh,
                mesh_id,
                material_id,
                transform,
                inverse: inverse_or_identity(*f, transform),
                transform1,
                world_bounds: world_box(*f, mesh.local_bounds, transform, transform1),
                scale: matrix::scale_of(*f, transform),
            }),
    {
        Instance::build(
            GeomKind::Mesh,
            mesh_id,
            material_id,
            transform,
            transform1,
            &mesh.local_bounds,
            f,
        )
    }
}

} // verus!
