//! What meshes, curves and surfaces of splines are: how they move, which way they face, where rays
//! meet them, and how displacement leaves them.

use crate::arith;
use crate::arith::{Op, TINY};
use crate::double;
use crate::geometry::curves;
use crate::geometry::displace;
use crate::geometry::extra;
use crate::geometry::extra::Hyperboloid;
use crate::geometry::hits;
use crate::geometry::hits::{LocalRay, SurfacePoint};
use crate::geometry::instance;
use crate::geometry::instance::MeshHit;
use crate::geometry::mesh::{PolygonMeshView, Single2, Single3};
use crate::geometry::normals;
use crate::geometry::quadric_laws;
use crate::geometry::splines;
use crate::geometry::subdivision_laws;
use crate::geometry::traits;
use crate::math::matrix;
use crate::math::matrix_laws;
use crate::math::{Matrix4, Point3, Vec3, FULL_CIRCLE, HALF, ONE, TWO, ZERO};
use crate::near;
use crate::parser::requests::Particle;
use crate::parser::usd::prim_laws;
use crate::raytracer::ray::Ray;
use crate::rounding;
use vstd::arithmetic::power2::*;
use vstd::prelude::*;

verus! {

// ---- moving ----------------------------------------------------------------

/// Part of the way from one whole number to another, by a number of parts of a thousand and
/// twenty-four.
proof fn on_the_way<F: Fn(Op, u64, u64) -> u64>(f: F, a: u64, i: int, b: u64, j: int, t: u64, k: int)
    requires
        rounding::is_rounding(f),
        matrix_laws::is_count(a, i) && matrix_laws::is_within(i, 0x1_0000_0000),
        matrix_laws::is_count(b, j) && matrix_laws::is_within(j, 0x1_0000_0000),
        rounding::is_step(t, k, 1064) && 0 <= k <= 1024,
    ensures
        ({
            let r = arith::sum(f, a, arith::product(f, arith::difference(f, b, a), t));
            rounding::is_step(r, 1024 * i + (j - i) * k, 1064)
        }),
{
    matrix_laws::minus_counts(f, b, j, a, i);
    let d = arith::difference(f, b, a);
    assert(matrix_laws::is_within((j - i) * k, 0x800_0000_0000)) by (nonlinear_arith)
        requires
            matrix_laws::is_within(i, 0x1_0000_0000),
            matrix_laws::is_within(j, 0x1_0000_0000),
            0 <= k <= 1024,
    ;
    rounding::product_of_steps(f, d, j - i, 1074, t, k, 1064);
    lemma2_to64();
    lemma_pow2_adds(10, 1064);
    let p = pow2(1064) as int;
    assert((1024 * i) * p == i * (1024 * p)) by (nonlinear_arith);
    rounding::sum_of_steps(f, a, 1024 * i, arith::product(f, d, t), (j - i) * k, 1064);
}

/// A vertex of a mesh that moves is as far on its way, from where it is at the opening of the
/// shutter to where it is at its close, as the shutter is; and one that does not stays.
pub proof fn vertices_move_with_the_shutter<F: Fn(Op, u64, u64) -> u64>(
    f: F,
    m: PolygonMeshView,
    v: int,
    a: (int, int, int),
    b: (int, int, int),
    time: u64,
    k: int,
)
    requires
        rounding::is_rounding(f),
        0 <= v < m.positions.len(),
        matrix_laws::is_arrow(normals::widened_triple(m.positions[v]), a.0, a.1, a.2, 0x1_0000_0000),
        m.positions1 matches Some(p) && v < p.len() && matrix_laws::is_arrow(
            normals::widened_triple(p[v]),
            b.0,
            b.1,
            b.2,
            0x1_0000_0000,
        ),
        rounding::is_step(time, k, 1064) && 0 <= k <= 1024,
    ensures
        ({
            let r = hits::vertex_at(f, m, v, time);
            &&& rounding::is_step(r.x, 1024 * a.0 + (b.0 - a.0) * k, 1064)
            &&& rounding::is_step(r.y, 1024 * a.1 + (b.1 - a.1) * k, 1064)
            &&& rounding::is_step(r.z, 1024 * a.2 + (b.2 - a.2) * k, 1064)
        }),
{
    let p = normals::widened_triple(m.positions[v]);
    let q = normals::widened_triple(m.positions1->0[v]);
    on_the_way(f, p.x, a.0, q.x, b.0, time, k);
    on_the_way(f, p.y, a.1, q.y, b.1, time, k);
    on_the_way(f, p.z, a.2, q.z, b.2, time, k);
    rounding::nought_and_one();
    rounding::order_tells(ZERO, time);
    lemma_pow2_pos(1064);
    lemma2_to64();
    lemma_pow2_adds(10, 1064);
    let w = pow2(1064) as int;
    assert(k * w > 0 <==> k > 0) by (nonlinear_arith)
        requires
            w > 0,
            k >= 0,
    ;
    if k == 0 {
        assert((b.0 - a.0) * 0 == 0 && (b.1 - a.1) * 0 == 0 && (b.2 - a.2) * 0 == 0);
        assert((1024 * a.0) * w == a.0 * (1024 * w)) by (nonlinear_arith);
        assert((1024 * a.1) * w == a.1 * (1024 * w)) by (nonlinear_arith);
        assert((1024 * a.2) * w == a.2 * (1024 * w)) by (nonlinear_arith);
    }
}

/// A transform that moves is as far on its way as the shutter is, in each of its entries.
pub proof fn transforms_move_with_the_shutter<F: Fn(Op, u64, u64) -> u64>(
    f: F,
    m: Matrix4,
    k: spec_fn(int, int) -> int,
    n: Matrix4,
    l: spec_fn(int, int) -> int,
    time: u64,
    t: int,
    i: int,
    j: int,
)
    requires
        rounding::is_rounding(f),
        matrix_laws::is_table(m, k, 0x1_0000_0000),
        matrix_laws::is_table(n, l, 0x1_0000_0000),
        rounding::is_step(time, t, 1064) && 0 <= t <= 1024,
        0 <= i < 4 && 0 <= j < 4,
    ensures
        rounding::is_step(
            matrix::entry(instance::towards(f, m, n, time), i, j),
            1024 * k(i, j) + (l(i, j) - k(i, j)) * t,
            1064,
        ),
{
    let (a, b) = (matrix::entry(m, i, j), matrix::entry(n, i, j));
    on_the_way(f, a, k(i, j), b, l(i, j), time, t);
}

// ---- facing ----------------------------------------------------------------

/// The product of two vectors of whole numbers that is across both.
pub proof fn crosses_count<F: Fn(Op, u64, u64) -> u64>(
    f: F,
    v: Vec3,
    a: int,
    b: int,
    c: int,
    w: Vec3,
    x: int,
    y: int,
    z: int,
)
    requires
        rounding::is_rounding(f),
        matrix_laws::is_arrow(v, a, b, c, 0x10_0000),
        matrix_laws::is_arrow(w, x, y, z, 0x10_0000),
    ensures
        matrix_laws::is_arrow(
            arith::cross_product(f, v, w),
            b * z - c * y,
            c * x - a * z,
            a * y - b * x,
            0x200_0000_0000,
        ),
{
    cross_count(f, v.y, b, w.z, z, v.z, c, w.y, y);
    cross_count(f, v.z, c, w.x, x, v.x, a, w.z, z);
    cross_count(f, v.x, a, w.y, y, v.y, b, w.x, x);
}

proof fn cross_count<F: Fn(Op, u64, u64) -> u64>(
    f: F,
    p: u64,
    i: int,
    q: u64,
    j: int,
    r: u64,
    k: int,
    s: u64,
    l: int,
)
    requires
        rounding::is_rounding(f),
        matrix_laws::is_count(p, i) && matrix_laws::is_within(i, 0x10_0000),
        matrix_laws::is_count(q, j) && matrix_laws::is_within(j, 0x10_0000),
        matrix_laws::is_count(r, k) && matrix_laws::is_within(k, 0x10_0000),
        matrix_laws::is_count(s, l) && matrix_laws::is_within(l, 0x10_0000),
    ensures
        matrix_laws::is_count(
            arith::difference(f, arith::product(f, p, q), arith::product(f, r, s)),
            i * j - k * l,
        ),
        matrix_laws::is_within(i * j - k * l, 0x200_0000_0000),
{
    matrix_laws::times_counts(f, p, i, q, j, 0x10_0000, 0x10_0000);
    matrix_laws::times_counts(f, r, k, s, l, 0x10_0000, 0x10_0000);
    matrix_laws::minus_counts(f, arith::product(f, p, q), i * j, arith::product(f, r, s), k * l);
}

proof fn edges_count<F: Fn(Op, u64, u64) -> u64>(
    f: F,
    v: Vec3,
    a: (int, int, int),
    w: Vec3,
    b: (int, int, int),
)
    requires
        rounding::is_rounding(f),
        matrix_laws::is_arrow(v, a.0, a.1, a.2, 0x8_0000),
        matrix_laws::is_arrow(w, b.0, b.1, b.2, 0x8_0000),
    ensures
        matrix_laws::is_arrow(
            arith::vector_difference(f, v, w),
            a.0 - b.0,
            a.1 - b.1,
            a.2 - b.2,
            0x10_0000,
        ),
{
    matrix_laws::minus_counts(f, v.x, a.0, w.x, b.0);
    matrix_laws::minus_counts(f, v.y, a.1, w.y, b.1);
    matrix_laws::minus_counts(f, v.z, a.2, w.z, b.2);
}

/// What a triangle adds to the normals of its corners: the product across of its edges from the
/// first corner, in their order.
pub proof fn faces_turn_by_their_corners<F: Fn(Op, u64, u64) -> u64>(
    f: F,
    positions: Seq<Single3>,
    indices: Seq<u32>,
    tri: int,
    a: (int, int, int),
    b: (int, int, int),
    c: (int, int, int),
)
    requires
        rounding::is_rounding(f),
        0 <= tri && 3 * tri + 2 < indices.len(),
        matrix_laws::is_arrow(
            normals::widened_triple(positions[indices[3 * tri] as int]),
            a.0,
            a.1,
            a.2,
            0x8_0000,
        ),
        matrix_laws::is_arrow(
            normals::widened_triple(positions[indices[3 * tri + 1] as int]),
            b.0,
            b.1,
            b.2,
            0x8_0000,
        ),
        matrix_laws::is_arrow(
            normals::widened_triple(positions[indices[3 * tri + 2] as int]),
            c.0,
            c.1,
            c.2,
            0x8_0000,
        ),
    ensures
        ({
            let n = normals::face_normal(f, positions, indices, tri);
            let (ux, uy, uz) = (b.0 - a.0, b.1 - a.1, b.2 - a.2);
            let (vx, vy, vz) = (c.0 - a.0, c.1 - a.1, c.2 - a.2);
            &&& matrix_laws::is_count(n.x, uy * vz - uz * vy)
            &&& matrix_laws::is_count(n.y, uz * vx - ux * vz)
            &&& matrix_laws::is_count(n.z, ux * vy - uy * vx)
        }),
{
    let p = normals::widened_triple(positions[indices[3 * tri] as int]);
    let q = normals::widened_triple(positions[indices[3 * tri + 1] as int]);
    let r = normals::widened_triple(positions[indices[3 * tri + 2] as int]);
    edges_count(f, q, b, p, a);
    edges_count(f, r, c, p, a);
    crosses_count(
        f,
        arith::vector_difference(f, q, p),
        b.0 - a.0,
        b.1 - a.1,
        b.2 - a.2,
        arith::vector_difference(f, r, p),
        c.0 - a.0,
        c.1 - a.1,
        c.2 - a.2,
    );
}

/// Whether a normal is another, or its opposite, and does not point along a direction.
pub open spec fn is_against(m: Vec3, n: Vec3, x: int, y: int, z: int) -> bool {
    &&& (near::exact(m.x) == near::exact(n.x) && near::exact(m.y) == near::exact(n.y) && near::exact(m.z)
        == near::exact(n.z)) || (near::exact(m.x) == -near::exact(n.x) && near::exact(m.y)
        == -near::exact(n.y) && near::exact(m.z) == -near::exact(n.z))
    &&& near::exact(m.x) * x + near::exact(m.y) * y + near::exact(m.z) * z <= 0
}

/// A hit on an instance has a normal that faces the ray, along the one found or its opposite; and
/// it is on the front where the one found faces the ray itself.
pub proof fn hits_face_the_ray<F: Fn(Op, u64, u64) -> u64>(
    f: F,
    h: MeshHit,
    r: Ray,
    material_id: usize,
    a: int,
    b: int,
    c: int,
    x: int,
    y: int,
    z: int,
)
    requires
        rounding::is_rounding(f),
        matrix_laws::is_arrow(h.world_normal, a, b, c, 0x10_0000),
        matrix_laws::is_arrow(r.direction, x, y, z, 0x10_0000),
    ensures
        ({
            let s = instance::faced(f, h, r, material_id);
            &&& s.front_face <==> a * x + b * y + c * z < 0
            &&& exists|m: Vec3| #[trigger]
                is_against(m, h.world_normal, x, y, z) && quadric_laws::is_along(s.normal, m)
        }),
{
    let n = h.world_normal;
    matrix_laws::dots_count(f, n, a, b, c, r.direction, x, y, z);
    let dot = arith::dot_product(f, n, r.direction);
    rounding::nought_and_one();
    rounding::order_tells(dot, ZERO);
    rounding::negation_is_exact(n.x);
    rounding::negation_is_exact(n.y);
    rounding::negation_is_exact(n.z);
    lemma_pow2_pos(1074);
    let (w, t) = (pow2(1074) as int, a * x + b * y + c * z);
    assert(t * w < 0 <==> t < 0) by (nonlinear_arith)
        requires
            w > 0,
    ;
    let (i, j, k) = (near::exact(n.x), near::exact(n.y), near::exact(n.z));
    assert(i * x == (a * x) * w) by (nonlinear_arith)
        requires
            i == a * w,
    ;
    assert(j * y == (b * y) * w) by (nonlinear_arith)
        requires
            j == b * w,
    ;
    assert(k * z == (c * z) * w) by (nonlinear_arith)
        requires
            k == c * w,
    ;
    assert((a * x) * w + (b * y) * w + (c * z) * w == t * w) by (nonlinear_arith)
        requires
            t == a * x + b * y + c * z,
    ;
    assert((-i) * x == -(i * x) && (-j) * y == -(j * y) && (-k) * z == -(k * z)) by (nonlinear_arith);
    let m = if double::below(dot, ZERO) {
        n
    } else {
        Vec3::of(double::negated(n.x), double::negated(n.y), double::negated(n.z))
    };
    assert(is_against(m, n, x, y, z));
    quadric_laws::units_point_along(f, m);
}

// ---- triangles -------------------------------------------------------------

/// The product of three vectors.
pub open spec fn box_product(a: (int, int, int), b: (int, int, int), c: (int, int, int)) -> int {
    a.0 * (b.1 * c.2 - b.2 * c.1) + a.1 * (b.2 * c.0 - b.0 * c.2) + a.2 * (b.0 * c.1 - b.1 * c.0)
}

proof fn one_box(x: int, p: int, q: int, r: int, s: int)
    ensures
        x * (p * q - r * s) == (x * p) * q - (x * r) * s,
{
    assert(x * (p * q - r * s) == (x * p) * q - (x * r) * s) by (nonlinear_arith);
}

proof fn order_of_three(a: int, b: int, c: int)
    ensures
        (a * b) * c == (b * a) * c,
        (a * b) * c == (a * c) * b,
        (a * b) * c == (c * b) * a,
        (a * b) * c == (b * c) * a,
        (a * b) * c == (c * a) * b,
{
    assert((a * b) * c == (b * a) * c) by (nonlinear_arith);
    assert((a * b) * c == (a * c) * b) by (nonlinear_arith);
    assert((a * b) * c == (c * b) * a) by (nonlinear_arith);
    assert((a * b) * c == (b * c) * a) by (nonlinear_arith);
    assert((a * b) * c == (c * a) * b) by (nonlinear_arith);
}

/// The product of three vectors turns its sign with two of them, and is nothing where two are one.
proof fn boxes_turn(a: (int, int, int), b: (int, int, int), c: (int, int, int))
    ensures
        box_product(a, b, c) == box_product(b, c, a),
        box_product(a, b, c) == -box_product(b, a, c),
        box_product(a, a, c) == 0,
{
    box_spreads(a, b, c);
    box_spreads(b, c, a);
    box_spreads(b, a, c);
    box_spreads(a, a, c);
    order_of_three(a.0, b.1, c.2);
    order_of_three(a.0, b.2, c.1);
    order_of_three(a.1, b.2, c.0);
    order_of_three(a.1, b.0, c.2);
    order_of_three(a.2, b.0, c.1);
    order_of_three(a.2, b.1, c.0);
    order_of_three(a.0, a.1, c.2);
    order_of_three(a.0, a.2, c.1);
    order_of_three(a.1, a.2, c.0);
}

proof fn box_spreads(a: (int, int, int), b: (int, int, int), c: (int, int, int))
    ensures
        box_product(a, b, c) == (a.0 * b.1) * c.2 - (a.0 * b.2) * c.1 + (a.1 * b.2) * c.0 - (a.1 * b.0)
            * c.2 + (a.2 * b.0) * c.1 - (a.2 * b.1) * c.0,
{
    one_box(a.0, b.1, c.2, b.2, c.1);
    one_box(a.1, b.2, c.0, b.0, c.2);
    one_box(a.2, b.0, c.1, b.1, c.0);
}

/// The product of three vectors, the first of which is one less a multiple of another.
proof fn box_of_difference(
    a: (int, int, int),
    s: int,
    d: (int, int, int),
    b: (int, int, int),
    c: (int, int, int),
)
    ensures
        box_product((a.0 - s * d.0, a.1 - s * d.1, a.2 - s * d.2), b, c) == box_product(a, b, c) - s
            * box_product(d, b, c),
{
    let (p, q, r) = (b.1 * c.2 - b.2 * c.1, b.2 * c.0 - b.0 * c.2, b.0 * c.1 - b.1 * c.0);
    assert((a.0 - s * d.0) * p == a.0 * p - s * (d.0 * p)) by (nonlinear_arith);
    assert((a.1 - s * d.1) * q == a.1 * q - s * (d.1 * q)) by (nonlinear_arith);
    assert((a.2 - s * d.2) * r == a.2 * r - s * (d.2 * r)) by (nonlinear_arith);
    let (x, y, z) = (d.0 * p, d.1 * q, d.2 * r);
    assert(s * (x + y + z) == s * x + s * y + s * z) by (nonlinear_arith);
}

/// A number of whole numbers times one over a power of two.
proof fn shared<F: Fn(Op, u64, u64) -> u64>(f: F, a: u64, i: int, det: u64, d: int, s: nat, q: int)
    requires
        rounding::is_rounding(f),
        matrix_laws::is_count(a, i),
        matrix_laws::is_count(det, d),
        d == pow2(s) || d == -pow2(s),
        s <= 45,
        i == q * d,
        matrix_laws::is_within(i, 0x10_0000_0000_0000),
    ensures
        matrix_laws::is_count(arith::product(f, a, arith::quotient(f, ONE, det)), q),
{
    matrix_laws::small_counts();
    let g: int = if d == pow2(s) {
        1
    } else {
        -1
    };
    let (x, y) = (pow2(s) as int, pow2(1074) as int);
    lemma_pow2_adds(s, 1074);
    assert((g * x) * y == g * (x * y)) by (nonlinear_arith);
    assert(-1 * x == -x && 1 * x == x);
    assert(rounding::is_step(det, g, 1074 + s));
    assert(g * g == 1) by (nonlinear_arith)
        requires
            g == 1 || g == -1,
    ;
    rounding::quotient_of_steps(f, ONE, g, 1074, det, g, 1074 + s);
    let by = arith::quotient(f, ONE, det);
    let v = (1074 - s) as nat;
    assert(matrix_laws::is_within(i * g, 0x10_0000_0000_0000)) by (nonlinear_arith)
        requires
            matrix_laws::is_within(i, 0x10_0000_0000_0000),
            g == 1 || g == -1,
    ;
    rounding::product_of_steps(f, a, i, 1074, by, g, v);
    lemma_pow2_adds(s, v);
    let z = pow2(v) as int;
    assert(((q * (g * x)) * g) * z == (q * (x * z)) * (g * g)) by (nonlinear_arith);
    assert((q * (x * z)) * 1 == q * (x * z));
}

/// A ray to a corner of a triangle meets it there, as far off as the ray starts: at the first
/// corner with no parts of the others, at each of these with one of its own.
pub proof fn corners_are_met<F: Fn(Op, u64, u64) -> u64>(
    f: F,
    ray: LocalRay,
    v0: Vec3,
    v1: Vec3,
    v2: Vec3,
    t_max: u64,
    a: (int, int, int),
    b: (int, int, int),
    c: (int, int, int),
    d: (int, int, int),
    corner: int,
    t: int,
    s: nat,
)
    requires
        rounding::is_rounding(f),
        is_place(v0, a) && is_place(v1, b) && is_place(v2, c) && is_place(ray.direction, d),
        0 <= corner < 3,
        1 <= t <= 0x40,
        ({
            let at = if corner == 0 {
                a
            } else if corner == 1 {
                b
            } else {
                c
            };
            is_place(ray.origin, (at.0 - t * d.0, at.1 - t * d.1, at.2 - t * d.2))
        }),
        ({
            let det = box_product(
                (b.0 - a.0, b.1 - a.1, b.2 - a.2),
                d,
                (c.0 - a.0, c.1 - a.1, c.2 - a.2),
            );
            det == pow2(s) || det == -pow2(s)
        }),
        s <= 40,
        double::is_finite(t_max),
        near::exact(t_max) > t * pow2(1074),
    ensures
        hits::triangle_hit(f, ray, v0, v1, v2, t_max) matches Some(h) && matrix_laws::is_count(h.t, t)
            && matrix_laws::is_count(
            h.u,
            if corner == 1 {
                1
            } else {
                0
            },
        ) && matrix_laws::is_count(
            h.v,
            if corner == 2 {
                1
            } else {
                0
            },
        ),
{
    let (e, g) = (
        (b.0 - a.0, b.1 - a.1, b.2 - a.2),
        (c.0 - a.0, c.1 - a.1, c.2 - a.2),
    );
    let at = if corner == 0 {
        a
    } else if corner == 1 {
        b
    } else {
        c
    };
    let o = (at.0 - t * d.0, at.1 - t * d.1, at.2 - t * d.2);
    let off = (at.0 - a.0, at.1 - a.1, at.2 - a.2);
    let h = (off.0 - t * d.0, off.1 - t * d.1, off.2 - t * d.2);
    edges_count(f, v1, b, v0, a);
    edges_count(f, v2, c, v0, a);
    edges_count(f, ray.origin, o, v0, a);
    small_edges(b, a);
    small_edges(c, a);
    small_edges(o, a);
    let (e1, e2) = (arith::vector_difference(f, v1, v0), arith::vector_difference(f, v2, v0));
    let from = arith::vector_difference(f, ray.origin, v0);
    crosses_count(f, ray.direction, d.0, d.1, d.2, e2, g.0, g.1, g.2);
    crosses_count(f, from, h.0, h.1, h.2, e1, e.0, e.1, e.2);
    let p = arith::cross_product(f, ray.direction, e2);
    let q = arith::cross_product(f, from, e1);
    let pi = (d.1 * g.2 - d.2 * g.1, d.2 * g.0 - d.0 * g.2, d.0 * g.1 - d.1 * g.0);
    let qi = (h.1 * e.2 - h.2 * e.1, h.2 * e.0 - h.0 * e.2, h.0 * e.1 - h.1 * e.0);
    small_crosses(d, g);
    small_crosses(h, e);
    matrix_laws::dots_count(f, e1, e.0, e.1, e.2, p, pi.0, pi.1, pi.2);
    matrix_laws::dots_count(f, from, h.0, h.1, h.2, p, pi.0, pi.1, pi.2);
    matrix_laws::dots_count(f, ray.direction, d.0, d.1, d.2, q, qi.0, qi.1, qi.2);
    matrix_laws::dots_count(f, e2, g.0, g.1, g.2, q, qi.0, qi.1, qi.2);
    let det = box_product(e, d, g);
    let dd = arith::dot_product(f, e1, p);
    assert(matrix_laws::is_count(dd, det));
    // How far along the first edge.
    box_of_difference(off, t, d, d, g);
    boxes_turn(d, d, g);
    assert(t * 0 == 0);
    assert(box_product(h, d, g) == box_product(off, d, g));
    let u: int = if corner == 1 {
        1
    } else {
        0
    };
    let v: int = if corner == 2 {
        1
    } else {
        0
    };
    none_along(d, g);
    boxes_turn(g, d, g);
    boxes_turn(d, g, g);
    boxes_turn(g, g, d);
    assert(box_product(off, d, g) == u * det);
    // How far along the second edge, and along the ray.
    boxes_turn(d, h, e);
    box_of_difference(off, t, d, e, d);
    boxes_turn(d, e, d);
    boxes_turn(e, d, d);
    boxes_turn(d, d, e);
    assert(box_product(d, h, e) == box_product(h, e, d));
    assert(box_product(h, e, d) == box_product(off, e, d));
    none_along(e, d);
    boxes_turn(e, e, d);
    boxes_turn(g, e, d);
    boxes_turn(e, d, g);
    assert(box_product(off, e, d) == v * det);
    boxes_turn(g, h, e);
    box_of_difference(off, t, d, e, g);
    boxes_turn(d, e, g);
    boxes_turn(g, e, g);
    boxes_turn(e, g, g);
    boxes_turn(g, g, e);
    boxes_turn(e, e, g);
    none_along(e, g);
    assert(box_product(g, h, e) == box_product(h, e, g));
    assert(box_product(off, e, g) == 0);
    assert(box_product(d, e, g) == -det);
    assert(t * (-det) == -(t * det)) by (nonlinear_arith);
    assert(box_product(g, h, e) == t * det);
    powers_are_small(s);
    assert(matrix_laws::is_within(t * det, 0x10_0000_0000_0000)) by (nonlinear_arith)
        requires
            1 <= t <= 0x40,
            matrix_laws::is_within(det, 0x100_0000_0000),
    ;
    assert(0 * det == 0 && 1 * det == det);
    shared(f, arith::dot_product(f, from, p), u * det, dd, det, s, u);
    shared(f, arith::dot_product(f, ray.direction, q), v * det, dd, det, s, v);
    shared(f, arith::dot_product(f, e2, q), t * det, dd, det, s, t);
    let inverse = arith::quotient(f, ONE, dd);
    let hu = arith::product(f, arith::dot_product(f, from, p), inverse);
    let hv = arith::product(f, arith::dot_product(f, ray.direction, q), inverse);
    let ht = arith::product(f, arith::dot_product(f, e2, q), inverse);
    matrix_laws::plus_counts(f, hu, u, hv, v);
    is_taken(f, dd, det, hu, u, hv, v, arith::sum(f, hu, hv), ht, t, t_max);
}

/// Whether a vector has these small whole numbers.
pub open spec fn is_place(v: Vec3, a: (int, int, int)) -> bool {
    matrix_laws::is_arrow(v, a.0, a.1, a.2, 0x200)
}

proof fn small_edges(a: (int, int, int), b: (int, int, int))
    requires
        matrix_laws::is_within(a.0, 0x200) && matrix_laws::is_within(a.1, 0x200)
            && matrix_laws::is_within(a.2, 0x200),
        matrix_laws::is_within(b.0, 0x200) && matrix_laws::is_within(b.1, 0x200)
            && matrix_laws::is_within(b.2, 0x200),
    ensures
        matrix_laws::is_within(a.0 - b.0, 0x400) && matrix_laws::is_within(a.1 - b.1, 0x400)
            && matrix_laws::is_within(a.2 - b.2, 0x400),
{
}

proof fn small_crosses(a: (int, int, int), b: (int, int, int))
    requires
        matrix_laws::is_within(a.0, 0x400) && matrix_laws::is_within(a.1, 0x400)
            && matrix_laws::is_within(a.2, 0x400),
        matrix_laws::is_within(b.0, 0x400) && matrix_laws::is_within(b.1, 0x400)
            && matrix_laws::is_within(b.2, 0x400),
    ensures
        matrix_laws::is_within(a.1 * b.2 - a.2 * b.1, 0x30_0000),
        matrix_laws::is_within(a.2 * b.0 - a.0 * b.2, 0x30_0000),
        matrix_laws::is_within(a.0 * b.1 - a.1 * b.0, 0x30_0000),
{
    small_product(a.1, b.2);
    small_product(a.2, b.1);
    small_product(a.2, b.0);
    small_product(a.0, b.2);
    small_product(a.0, b.1);
    small_product(a.1, b.0);
}

proof fn small_product(i: int, j: int)
    requires
        matrix_laws::is_within(i, 0x400) && matrix_laws::is_within(j, 0x400),
    ensures
        matrix_laws::is_within(i * j, 0x10_0000),
{
    assert(matrix_laws::is_within(i * j, 0x10_0000)) by (nonlinear_arith)
        requires
            matrix_laws::is_within(i, 0x400) && matrix_laws::is_within(j, 0x400),
    ;
}

proof fn none_along(b: (int, int, int), c: (int, int, int))
    ensures
        box_product((0, 0, 0), b, c) == 0,
{
}

proof fn powers_are_small(s: nat)
    requires
        s <= 40,
    ensures
        1 <= pow2(s) <= 0x100_0000_0000,
{
    lemma2_to64();
    lemma2_to64_rest();
    lemma_pow2_pos(s);
    if s < 40 {
        lemma_pow2_strictly_increases(s, 40);
    }
}

/// What passes all tests of a triangle is a hit.
proof fn is_taken<F: Fn(Op, u64, u64) -> u64>(
    f: F,
    dd: u64,
    det: int,
    hu: u64,
    u: int,
    hv: u64,
    v: int,
    both: u64,
    ht: u64,
    t: int,
    t_max: u64,
)
    requires
        matrix_laws::is_count(dd, det) && det != 0,
        matrix_laws::is_count(hu, u) && 0 <= u,
        matrix_laws::is_count(hv, v) && 0 <= v,
        u + v <= 1,
        matrix_laws::is_count(both, u + v),
        matrix_laws::is_count(ht, t) && t >= 1,
        double::is_finite(t_max),
        near::exact(t_max) > t * pow2(1074),
    ensures
        !double::below(double::magnitude(dd), hits::FLAT),
        double::at_most(ZERO, hu) && double::at_most(hu, ONE),
        !double::below(hv, ZERO) && !double::below(ONE, both),
        double::below(hits::NEAR, ht) && double::below(ht, t_max),
{
    lemma_pow2_pos(1074);
    let w = pow2(1074) as int;
    rounding::nought_and_one();
    rounding::magnitude_is_exact(dd);
    assert(double::is_finite(hits::FLAT) && double::below(hits::FLAT, ONE));
    assert(double::is_finite(hits::NEAR) && double::below(hits::NEAR, ONE));
    rounding::order_tells(hits::FLAT, ONE);
    rounding::order_tells(hits::NEAR, ONE);
    rounding::order_tells(double::magnitude(dd), hits::FLAT);
    rounding::order_tells(ZERO, hu);
    rounding::order_tells(hu, ONE);
    rounding::order_tells(hv, ZERO);
    rounding::order_tells(ONE, both);
    rounding::order_tells(hits::NEAR, ht);
    rounding::order_tells(ht, t_max);
    assert(near::gap(det * w, 0) >= w) by (nonlinear_arith)
        requires
            w > 0,
            det != 0,
            near::gap(det * w, 0) == det * w || near::gap(det * w, 0) == -(det * w),
            near::gap(det * w, 0) >= 0,
    ;
    assert(t * w >= w) by (nonlinear_arith)
        requires
            t >= 1,
            w > 0,
    ;
    let s = u + v;
    assert(0 * w == 0 && 1 * w == w);
    assert(u == 0 || u == 1);
    assert(v == 0 || v == 1);
}

// ---- what corners carry ----------------------------------------------------

/// Whether a double is one, as a number.
spec fn is_one(a: u64) -> bool {
    double::is_finite(a) && near::exact(a) == rounding::whole()
}

/// Three numbers by their weights, where one weight is one and the others are nothing.
proof fn one_is_picked<F: Fn(Op, u64, u64) -> u64>(f: F, a: u64, p: u64, b: u64, q: u64, c: u64, r: u64)
    requires
        rounding::is_rounding(f),
        double::is_finite(a) && double::is_finite(b) && double::is_finite(c),
        (is_one(p) && rounding::is_nought(q) && rounding::is_nought(r)) || (rounding::is_nought(p)
            && is_one(q) && rounding::is_nought(r)) || (rounding::is_nought(p) && rounding::is_nought(q)
            && is_one(r)),
    ensures
        ({
            let s = arith::sum(
                f,
                arith::sum(f, arith::product(f, a, p), arith::product(f, b, q)),
                arith::product(f, c, r),
            );
            &&& double::is_finite(s)
            &&& is_one(p) ==> near::exact(s) == near::exact(a)
            &&& is_one(q) ==> near::exact(s) == near::exact(b)
            &&& is_one(r) ==> near::exact(s) == near::exact(c)
        }),
{
    lemma_pow2_pos(1074);
    let (x, y, z) = (arith::product(f, a, p), arith::product(f, b, q), arith::product(f, c, r));
    if is_one(p) {
        rounding::product_with_one(f, a, p);
        rounding::product_with_nought(f, b, q);
        rounding::product_with_nought(f, c, r);
        rounding::sum_with_nought(f, x, y);
        rounding::sum_with_nought(f, arith::sum(f, x, y), z);
    } else if is_one(q) {
        rounding::product_with_nought(f, a, p);
        rounding::product_with_one(f, b, q);
        rounding::product_with_nought(f, c, r);
        rounding::sum_with_nought(f, y, x);
        rounding::sum_with_nought(f, arith::sum(f, x, y), z);
    } else {
        rounding::product_with_nought(f, a, p);
        rounding::product_with_nought(f, b, q);
        rounding::product_with_one(f, c, r);
        rounding::sum_with_nought(f, x, y);
        rounding::sum_with_nought(f, z, arith::sum(f, x, y));
    }
}

/// What is left of one for the first corner.
proof fn first_weight<F: Fn(Op, u64, u64) -> u64>(f: F)
    requires
        rounding::is_rounding(f),
    ensures
        is_one(arith::difference(f, arith::difference(f, ONE, ZERO), ZERO)),
        rounding::is_nought(arith::difference(f, arith::difference(f, ONE, ONE), ZERO)),
        rounding::is_nought(arith::difference(f, arith::difference(f, ONE, ZERO), ONE)),
        is_one(ONE) && rounding::is_nought(ZERO),
{
    rounding::nought_and_one();
    matrix_laws::small_counts();
    rounding::sum_with_nought(f, ONE, ZERO);
    let d = arith::difference(f, ONE, ZERO);
    rounding::sum_with_nought(f, d, ZERO);
    matrix_laws::minus_counts(f, ONE, 1, ONE, 1);
    assert(0 * pow2(1074) == 0 && 1 * pow2(1074) == pow2(1074));
    let e = arith::difference(f, ONE, ONE);
    rounding::sum_with_nought(f, e, ZERO);
    matrix_laws::minus_counts(f, d, 1, ONE, 1);
}

/// Whether a pair of surface parameters is finite.
pub open spec fn is_pair(p: Single2) -> bool {
    double::is_finite(double::widened(p.s)) && double::is_finite(double::widened(p.t))
}

/// Whether a place on a surface has the parameters of a corner.
pub open spec fn has_parameters(p: SurfacePoint, c: Single2) -> bool {
    near::exact(p.s) == near::exact(double::widened(c.s)) && near::exact(p.t) == near::exact(
        double::widened(c.t),
    )
}

/// The corners of a triangle have the surface parameters that are given for them: the first where
/// neither weight counts, and the others each where its own does.
pub proof fn corners_have_their_parameters<F: Fn(Op, u64, u64) -> u64>(
    f: F,
    m: PolygonMeshView,
    st: Seq<Single2>,
    tri: int,
)
    requires
        rounding::is_rounding(f),
        0 <= tri && 3 * tri + 2 < m.indices.len(),
        is_pair(st[m.indices[3 * tri] as int]),
        is_pair(st[m.indices[3 * tri + 1] as int]),
        is_pair(st[m.indices[3 * tri + 2] as int]),
    ensures
        has_parameters(hits::surface_point(f, m, st, tri, ZERO, ZERO), st[m.indices[3 * tri] as int]),
        has_parameters(
            hits::surface_point(f, m, st, tri, ONE, ZERO),
            st[m.indices[3 * tri + 1] as int],
        ),
        has_parameters(
            hits::surface_point(f, m, st, tri, ZERO, ONE),
            st[m.indices[3 * tri + 2] as int],
        ),
{
    first_weight(f);
    let a = st[m.indices[3 * tri] as int];
    let b = st[m.indices[3 * tri + 1] as int];
    let c = st[m.indices[3 * tri + 2] as int];
    let none = arith::difference(f, arith::difference(f, ONE, ZERO), ZERO);
    let one = arith::difference(f, arith::difference(f, ONE, ONE), ZERO);
    let two = arith::difference(f, arith::difference(f, ONE, ZERO), ONE);
    let (p, q, r) = (double::widened(a.s), double::widened(b.s), double::widened(c.s));
    one_is_picked(f, p, none, q, ZERO, r, ZERO);
    one_is_picked(f, p, one, q, ONE, r, ZERO);
    one_is_picked(f, p, two, q, ZERO, r, ONE);
    let (x, y, z) = (double::widened(a.t), double::widened(b.t), double::widened(c.t));
    one_is_picked(f, x, none, y, ZERO, z, ZERO);
    one_is_picked(f, x, one, y, ONE, z, ZERO);
    one_is_picked(f, x, two, y, ZERO, z, ONE);
    lemma_pow2_pos(1074);
}

/// The corners of a triangle that stands still have the normals that are given for them.
pub proof fn corners_have_their_normals<F: Fn(Op, u64, u64) -> u64>(
    f: F,
    m: PolygonMeshView,
    n: Seq<Single3>,
    tri: int,
    time: u64,
)
    requires
        rounding::is_rounding(f),
        0 <= tri && 3 * tri + 2 < m.indices.len(),
        m.normals == Some(n) && m.positions1 is None,
        quadric_laws::is_vector(normals::widened_triple(n[m.indices[3 * tri] as int])),
        quadric_laws::is_vector(normals::widened_triple(n[m.indices[3 * tri + 1] as int])),
        quadric_laws::is_vector(normals::widened_triple(n[m.indices[3 * tri + 2] as int])),
    ensures
        quadric_laws::is_along(
            instance::normal_on(f, m, tri, ZERO, ZERO, time),
            normals::widened_triple(n[m.indices[3 * tri] as int]),
        ),
        quadric_laws::is_along(
            instance::normal_on(f, m, tri, ONE, ZERO, time),
            normals::widened_triple(n[m.indices[3 * tri + 1] as int]),
        ),
        quadric_laws::is_along(
            instance::normal_on(f, m, tri, ZERO, ONE, time),
            normals::widened_triple(n[m.indices[3 * tri + 2] as int]),
        ),
{
    first_weight(f);
    lemma_pow2_pos(1074);
    let a = normals::widened_triple(n[m.indices[3 * tri] as int]);
    let b = normals::widened_triple(n[m.indices[3 * tri + 1] as int]);
    let c = normals::widened_triple(n[m.indices[3 * tri + 2] as int]);
    let none = arith::difference(f, arith::difference(f, ONE, ZERO), ZERO);
    let one = arith::difference(f, arith::difference(f, ONE, ONE), ZERO);
    let two = arith::difference(f, arith::difference(f, ONE, ZERO), ONE);
    picked_along(f, a, none, b, ZERO, c, ZERO);
    picked_along(f, a, one, b, ONE, c, ZERO);
    picked_along(f, a, two, b, ZERO, c, ONE);
}

/// Three vectors by their weights, where one counts only: the unit of it is along that.
proof fn picked_along<F: Fn(Op, u64, u64) -> u64>(f: F, a: Vec3, p: u64, b: Vec3, q: u64, c: Vec3, r: u64)
    requires
        rounding::is_rounding(f),
        quadric_laws::is_vector(a) && quadric_laws::is_vector(b) && quadric_laws::is_vector(c),
        (is_one(p) && rounding::is_nought(q) && rounding::is_nought(r)) || (rounding::is_nought(p)
            && is_one(q) && rounding::is_nought(r)) || (rounding::is_nought(p) && rounding::is_nought(q)
            && is_one(r)),
    ensures
        ({
            let s = arith::unit(
                f,
                arith::vector_sum(
                    f,
                    arith::vector_sum(
                        f,
                        arith::vector_multiple(f, a, p),
                        arith::vector_multiple(f, b, q),
                    ),
                    arith::vector_multiple(f, c, r),
                ),
            );
            &&& is_one(p) ==> quadric_laws::is_along(s, a)
            &&& is_one(q) ==> quadric_laws::is_along(s, b)
            &&& is_one(r) ==> quadric_laws::is_along(s, c)
        }),
{
    one_is_picked(f, a.x, p, b.x, q, c.x, r);
    one_is_picked(f, a.y, p, b.y, q, c.y, r);
    one_is_picked(f, a.z, p, b.z, q, c.z, r);
    lemma_pow2_pos(1074);
    let v = arith::vector_sum(
        f,
        arith::vector_sum(f, arith::vector_multiple(f, a, p), arith::vector_multiple(f, b, q)),
        arith::vector_multiple(f, c, r),
    );
    quadric_laws::units_point_along(f, v);
    let s = arith::unit(f, v);
    let t = if is_one(p) {
        a
    } else if is_one(q) {
        b
    } else {
        c
    };
    quadric_laws::same_direction(s, v, t);
}

// ---- curves ----------------------------------------------------------------

/// Whether the radius of an end is half a width, in single precision.
pub open spec fn is_half_of(radius: u32, num: int, u: nat) -> bool {
    exists|r: u64| #[trigger] rounding::is_step(r, num, u) && radius == double::narrowed(r)
}

/// A curve is half as thick, to each side, as its width: which goes from that of its root to that
/// of its tip with the way along it.
pub proof fn curves_taper_from_root_to_tip<F: Fn(Op, u64, u64) -> u64>(
    f: F,
    p: Vec3,
    v: u64,
    k: int,
    root: u64,
    i: int,
    tip: u64,
    j: int,
)
    requires
        rounding::is_rounding(f),
        matrix_laws::is_count(root, i) && matrix_laws::is_within(i, 0x1_0000_0000),
        matrix_laws::is_count(tip, j) && matrix_laws::is_within(j, 0x1_0000_0000),
        rounding::is_step(v, k, 1064) && 0 <= k <= 1024,
    ensures
        is_half_of(curves::curve_end(f, p, v, root, tip).radius, 1024 * i + (j - i) * k, 1063),
{
    on_the_way(f, root, i, tip, j, v, k);
    let width = arith::sum(f, root, arith::product(f, arith::difference(f, tip, root), v));
    subdivision_laws::constants_are_exact();
    let n = 1024 * i + (j - i) * k;
    assert(matrix_laws::is_within((j - i) * k, 0x800_0000_0000)) by (nonlinear_arith)
        requires
            matrix_laws::is_within(i, 0x1_0000_0000),
            matrix_laws::is_within(j, 0x1_0000_0000),
            0 <= k <= 1024,
    ;
    assert(n * 1 == n);
    rounding::product_of_steps(f, width, n, 1064, HALF, 1, 1073);
    let r = arith::product(f, width, HALF);
    assert(rounding::is_step(r, n, 1063));
}

/// A particle is a ball about its middle, as thick as its width.
pub proof fn particles_are_balls<F: Fn(Op, u64, u64) -> u64>(f: F, p: Particle, i: int)
    requires
        rounding::is_rounding(f),
        matrix_laws::is_count(p.width, i) && matrix_laws::is_within(i, 0x1_0000_0000),
    ensures
        ({
            let s = curves::particle_segment(f, p);
            &&& s.p0 == s.p1
            &&& is_half_of(s.p0.radius, i, 1073)
            &&& s.p0.x == double::narrowed(p.center.x)
            &&& s.p0.y == double::narrowed(p.center.y)
            &&& s.p0.z == double::narrowed(p.center.z)
        }),
{
    subdivision_laws::constants_are_exact();
    assert(i * 1 == i);
    rounding::product_of_steps(f, p.width, i, 1074, HALF, 1, 1073);
    assert(rounding::is_step(arith::product(f, p.width, HALF), i, 1073));
}

// ---- surfaces of splines ---------------------------------------------------

/// Splines of the second order are hats: in a span of knots, the one that ends with it falls with
/// how far the parameter is into it, and the one that begins with it rises.
pub proof fn linear_splines_are_hats<F: Fn(Op, u64, u64) -> u64>(
    f: F,
    knots: Seq<u64>,
    span: int,
    t: u64,
    x: int,
    lo: int,
    hi: int,
    before: int,
    after: int,
    s: nat,
)
    requires
        rounding::is_rounding(f),
        0 <= span && span + 1 < knots.len(),
        matrix_laws::is_count(knots[span], lo) && matrix_laws::is_within(lo, 0x1_0000_0000),
        matrix_laws::is_count(knots[span + 1], hi) && matrix_laws::is_within(hi, 0x1_0000_0000),
        matrix_laws::is_count(t, x) && lo <= x <= hi,
        hi - lo == pow2(s),
        s <= 32,
        matrix_laws::is_count(splines::knot_at(knots, span - 1), before),
        matrix_laws::is_within(before, 0x1_0000_0000),
        matrix_laws::is_count(splines::knot_at(knots, span + 2), after),
        matrix_laws::is_within(after, 0x1_0000_0000),
    ensures
        ({
            let rising = splines::spline_value(f, knots, span, t, span, 1);
            let falling = splines::spline_value(f, knots, span, t, span - 1, 1);
            &&& near::exact(rising) * (hi - lo) == (x - lo) * rounding::whole()
            &&& near::exact(falling) * (hi - lo) == (hi - x) * rounding::whole()
            &&& near::exact(rising) + near::exact(falling) == rounding::whole()
        }),
{
    reveal_with_fuel(splines::spline_value, 3);
    let (a, b) = (knots[span], knots[span + 1]);
    let (c, d) = (splines::knot_at(knots, span - 1), splines::knot_at(knots, span + 2));
    matrix_laws::small_counts();
    matrix_laws::minus_counts(f, b, hi, a, lo);
    matrix_laws::minus_counts(f, a, lo, c, before);
    matrix_laws::minus_counts(f, d, after, b, hi);
    matrix_laws::minus_counts(f, t, x, a, lo);
    matrix_laws::minus_counts(f, b, hi, t, x);
    matrix_laws::minus_counts(f, t, x, c, before);
    matrix_laws::minus_counts(f, d, after, t, x);
    let wide = arith::difference(f, b, a);
    is_wide(wide, hi - lo, s);
    let (up, down) = (arith::difference(f, t, a), arith::difference(f, b, t));
    share_of(f, up, x - lo, wide, hi - lo, s);
    share_of(f, down, hi - x, wide, hi - lo, s);
    let (ru, rd) = (
        arith::quotient(f, arith::product(f, ONE, up), wide),
        arith::quotient(f, arith::product(f, ONE, down), wide),
    );
    rounding::nought_and_one();
    rounding::sum_with_nought(f, ru, ZERO);
    rounding::sum_with_nought(f, rd, ZERO);
    let (l1, l2) = (arith::difference(f, a, c), arith::difference(f, d, b));
    let (m1, m2) = (arith::difference(f, t, c), arith::difference(f, d, t));
    assert(double::below(ZERO, TINY));
    if double::below(TINY, l1) {
        rounding::product_with_nought(f, m1, ZERO);
        rounding::quotient_of_nought(f, arith::product(f, ZERO, m1), l1);
        let n = arith::quotient(f, arith::product(f, ZERO, m1), l1);
        rounding::sum_with_nought(f, n, ZERO);
        rounding::sum_with_nought(f, rd, arith::sum(f, ZERO, n));
    }
    if double::below(TINY, l2) {
        rounding::product_with_nought(f, m2, ZERO);
        rounding::quotient_of_nought(f, arith::product(f, ZERO, m2), l2);
        let n = arith::quotient(f, arith::product(f, ZERO, m2), l2);
        rounding::sum_with_nought(f, arith::sum(f, ZERO, ru), n);
    }
    let rising = splines::spline_value(f, knots, span, t, span, 1);
    let falling = splines::spline_value(f, knots, span, t, span - 1, 1);
    assert(near::exact(rising) == near::exact(ru));
    assert(near::exact(falling) == near::exact(rd));
    let (p, q, w, h) = (near::exact(ru), near::exact(rd), rounding::whole(), hi - lo);
    lemma_pow2_pos(s);
    assert(p + q == w) by (nonlinear_arith)
        requires
            p * h == (x - lo) * w,
            q * h == (hi - x) * w,
            h == hi - lo,
            h > 0,
    ;
}

/// A span of knots that is a power of two wide is not too narrow to be divided by.
proof fn is_wide(a: u64, k: int, s: nat)
    requires
        matrix_laws::is_count(a, k),
        k == pow2(s),
    ensures
        double::below(TINY, a),
{
    lemma_pow2_pos(s);
    lemma_pow2_pos(1074);
    rounding::nought_and_one();
    assert(double::is_finite(TINY) && double::below(TINY, ONE));
    rounding::order_tells(TINY, ONE);
    rounding::order_tells(TINY, a);
    let w = pow2(1074) as int;
    assert(k * w >= w) by (nonlinear_arith)
        requires
            k >= 1,
            w > 0,
    ;
}

/// One times a whole number over a power of two.
proof fn share_of<F: Fn(Op, u64, u64) -> u64>(f: F, a: u64, i: int, wide: u64, h: int, s: nat)
    requires
        rounding::is_rounding(f),
        matrix_laws::is_count(a, i) && 0 <= i <= 0x2_0000_0000,
        matrix_laws::is_count(wide, h),
        h == pow2(s),
        s <= 32,
    ensures
        ({
            let r = arith::quotient(f, arith::product(f, ONE, a), wide);
            double::is_finite(r) && near::exact(r) * h == i * rounding::whole()
        }),
{
    rounding::nought_and_one();
    rounding::product_with_one(f, a, ONE);
    let p = arith::product(f, ONE, a);
    lemma_pow2_adds(s, 1074);
    assert(rounding::is_step(wide, 1, 1074 + s));
    assert(i * 1 == i);
    let v = (1074 - s) as nat;
    rounding::quotient_of_steps(f, p, i, 1074, wide, 1, 1074 + s);
    lemma_pow2_adds(s, v);
    let z = pow2(v) as int;
    assert((i * z) * h == i * (h * z)) by (nonlinear_arith);
}

// ---- hyperboloids ----------------------------------------------------------

/// The square of the radius of a hyperboloid, by the height, is that of the point of the line
/// through its two points at that height.
pub proof fn hyperboloids_are_turned_lines<F: Fn(Op, u64, u64) -> u64>(
    f: F,
    s: Hyperboloid,
    a: (int, int, int),
    b: (int, int, int),
    z: int,
)
    requires
        rounding::is_rounding(f),
        is_place(s.p1, a) && is_place(s.p2, b),
        b.2 - a.2 == 1,
    ensures
        ({
            let (pa, pb, pc) = extra::profile(f, s);
            let x = a.0 + (z - a.2) * (b.0 - a.0);
            let y = a.1 + (z - a.2) * (b.1 - a.1);
            exists|k: int, l: int, m: int|
                #![trigger matrix_laws::is_count(pa, k), matrix_laws::is_count(pb, l), matrix_laws::is_count(pc, m)]
                matrix_laws::is_count(pa, k) && matrix_laws::is_count(pb, l) && matrix_laws::is_count(
                    pc,
                    m,
                ) && k * (z * z) + l * z + m == x * x + y * y
        }),
{
    matrix_laws::small_counts();
    subdivision_laws::constants_are_exact();
    matrix_laws::minus_counts(f, s.p2.z, b.2, s.p1.z, a.2);
    let dz = arith::difference(f, s.p2.z, s.p1.z);
    assert(1int * 1 == 1);
    rounding::quotient_of_steps(f, ONE, 1, 1074, dz, 1, 1074);
    let u = arith::quotient(f, ONE, dz);
    let (i, j) = (b.0 - a.0, b.1 - a.1);
    matrix_laws::minus_counts(f, s.p2.x, b.0, s.p1.x, a.0);
    matrix_laws::minus_counts(f, s.p2.y, b.1, s.p1.y, a.1);
    let (dx, dy) = (arith::difference(f, s.p2.x, s.p1.x), arith::difference(f, s.p2.y, s.p1.y));
    matrix_laws::times_counts(f, dx, i, u, 1, 0x400, 1);
    matrix_laws::times_counts(f, dy, j, u, 1, 0x400, 1);
    let (sx, sy) = (arith::product(f, dx, u), arith::product(f, dy, u));
    matrix_laws::times_counts(f, s.p1.z, a.2, sx, i, 0x200, 0x400);
    matrix_laws::times_counts(f, s.p1.z, a.2, sy, j, 0x200, 0x400);
    let (g, h) = (a.0 - a.2 * i, a.1 - a.2 * j);
    matrix_laws::minus_counts(f, s.p1.x, a.0, arith::product(f, s.p1.z, sx), a.2 * i);
    matrix_laws::minus_counts(f, s.p1.y, a.1, arith::product(f, s.p1.z, sy), a.2 * j);
    let cx = arith::difference(f, s.p1.x, arith::product(f, s.p1.z, sx));
    let cy = arith::difference(f, s.p1.y, arith::product(f, s.p1.z, sy));
    two_products(f, sx, i, sx, i, sy, j, sy, j);
    two_products(f, cx, g, sx, i, cy, h, sy, j);
    two_products(f, cx, g, cx, g, cy, h, cy, h);
    let mixed = arith::sum(f, arith::product(f, cx, sx), arith::product(f, cy, sy));
    matrix_laws::times_counts(f, TWO, 2, mixed, g * i + h * j, 2, 0x1000_0000_0000);
    let (pa, pb, pc) = extra::profile(f, s);
    let (k, l, m) = (i * i + j * j, 2 * (g * i + h * j), g * g + h * h);
    assert(matrix_laws::is_count(pa, k) && matrix_laws::is_count(pb, l) && matrix_laws::is_count(pc, m));
    on_a_line(a.0, a.2, i, g, z);
    on_a_line(a.1, a.2, j, h, z);
    let q = z * z;
    assert((i * i + j * j) * q == (i * i) * q + (j * j) * q) by (nonlinear_arith);
    assert((2 * (g * i + h * j)) * z == (2 * (g * i)) * z + (2 * (h * j)) * z) by (nonlinear_arith);
}

/// The square of a number on a line, by its parts.
proof fn on_a_line(a: int, c: int, i: int, g: int, z: int)
    requires
        g == a - c * i,
    ensures
        (a + (z - c) * i) * (a + (z - c) * i) == (i * i) * (z * z) + (2 * (g * i)) * z + g * g,
{
    assert(a + (z - c) * i == g + z * i) by (nonlinear_arith)
        requires
            g == a - c * i,
    ;
    let t = z * i;
    assert((g + t) * (g + t) == g * g + 2 * (g * t) + t * t) by (nonlinear_arith);
    assert((z * i) * (z * i) == (i * i) * (z * z)) by (nonlinear_arith);
    assert(2 * (g * (z * i)) == (2 * (g * i)) * z) by (nonlinear_arith);
}

/// The sum of two products of whole numbers.
proof fn two_products<F: Fn(Op, u64, u64) -> u64>(
    f: F,
    p: u64,
    i: int,
    q: u64,
    j: int,
    r: u64,
    k: int,
    s: u64,
    l: int,
)
    requires
        rounding::is_rounding(f),
        matrix_laws::is_count(p, i) && matrix_laws::is_within(i, 0x10_0000),
        matrix_laws::is_count(q, j) && matrix_laws::is_within(j, 0x10_0000),
        matrix_laws::is_count(r, k) && matrix_laws::is_within(k, 0x10_0000),
        matrix_laws::is_count(s, l) && matrix_laws::is_within(l, 0x10_0000),
    ensures
        matrix_laws::is_count(
            arith::sum(f, arith::product(f, p, q), arith::product(f, r, s)),
            i * j + k * l,
        ),
        matrix_laws::is_within(i * j + k * l, 0x200_0000_0000),
{
    matrix_laws::times_counts(f, p, i, q, j, 0x10_0000, 0x10_0000);
    matrix_laws::times_counts(f, r, k, s, l, 0x10_0000, 0x10_0000);
    matrix_laws::plus_counts(f, arith::product(f, p, q), i * j, arith::product(f, r, s), k * l);
}

// ---- sweeps ----------------------------------------------------------------

/// The degrees of a point about the z axis go once round, from nothing on: those that are below
/// nothing are one circle more.
pub proof fn azimuths_go_once_round<F: Fn(Op, u64, u64) -> u64>(f: F, p: Point3)
    requires
        rounding::is_rounding(f),
        ({
            let phi = arith::value(f, Op::Degrees, p.y, p.x);
            double::is_finite(phi) && -180 * rounding::whole() <= near::exact(phi) <= 180
                * rounding::whole()
        }),
    ensures
        ({
            let phi = arith::value(f, Op::Degrees, p.y, p.x);
            let r = traits::azimuth(f, p);
            &&& double::at_most(ZERO, r) && double::at_most(r, FULL_CIRCLE)
            &&& near::exact(phi) >= 0 ==> r == phi
            &&& near::exact(phi) < 0 ==> rounding::rounds_to(
                r,
                near::exact(phi) + 360 * rounding::whole(),
                1,
            )
        }),
{
    let phi = arith::value(f, Op::Degrees, p.y, p.x);
    prim_laws::full_circle();
    rounding::nought_and_one();
    lemma_pow2_pos(1074);
    rounding::order_tells(phi, ZERO);
    rounding::order_tells(ZERO, phi);
    rounding::order_tells(phi, FULL_CIRCLE);
    reveal(rounding::is_rounding);
    let r = arith::sum(f, phi, FULL_CIRCLE);
    assert(near::exact(FULL_CIRCLE) == 360 * rounding::whole());
    if near::exact(phi) < 0 {
        let n = near::exact(phi) + 360 * rounding::whole();
        assert(near::exact(ZERO) * 1 <= n && n <= near::exact(FULL_CIRCLE) * 1);
    }
}

/// A point is on a sweep or off it, and not both; all are on one that goes all round.
pub proof fn sweeps_part_points<F: Fn(Op, u64, u64) -> u64>(f: F, p: Point3, thetamax: u64)
    requires
        double::is_finite(thetamax),
        !double::is_nan(traits::azimuth(f, p)),
    ensures
        traits::on_sweep(f, p, thetamax) != traits::off_sweep(f, p, thetamax),
        thetamax == FULL_CIRCLE ==> traits::on_sweep(f, p, thetamax),
{
    assert(!double::is_nan(FULL_CIRCLE) && !double::is_nan(thetamax));
}

// ---- displacement ----------------------------------------------------------

/// The weights of noise go from nothing to one, flat at both ends.
pub proof fn fades_go_from_nothing_to_one<F: Fn(Op, u64, u64) -> u64>(f: F)
    requires
        rounding::is_rounding(f),
    ensures
        matrix_laws::is_count(displace::fade(f, ZERO), 0),
        matrix_laws::is_count(displace::fade(f, ONE), 1),
{
    matrix_laws::small_counts();
    noise_numbers();
    fade_counts(f, ZERO, 0);
    fade_counts(f, ONE, 1);
}

proof fn noise_numbers()
    ensures
        matrix_laws::is_count(displace::SIX, 6),
        matrix_laws::is_count(displace::TEN, 10),
        matrix_laws::is_count(displace::FIFTEEN, 15),
{
    lemma2_to64();
    lemma2_to64_rest();
    assert(double::significand(displace::SIX) == 6 * 0x4_0000_0000_0000);
    assert(double::exponent_field(displace::SIX) == 1025);
    lemma_pow2_adds(50, 1024);
    let p = pow2(1024) as int;
    assert((6 * 0x4_0000_0000_0000) * p == 6 * (0x4_0000_0000_0000 * p)) by (nonlinear_arith);
    assert(double::significand(displace::TEN) == 10 * 0x2_0000_0000_0000);
    assert(double::exponent_field(displace::TEN) == 1026);
    assert(double::significand(displace::FIFTEEN) == 15 * 0x2_0000_0000_0000);
    assert(double::exponent_field(displace::FIFTEEN) == 1026);
    lemma_pow2_adds(49, 1025);
    let q = pow2(1025) as int;
    assert((10 * 0x2_0000_0000_0000) * q == 10 * (0x2_0000_0000_0000 * q)) by (nonlinear_arith);
    assert((15 * 0x2_0000_0000_0000) * q == 15 * (0x2_0000_0000_0000 * q)) by (nonlinear_arith);
}

proof fn fade_counts<F: Fn(Op, u64, u64) -> u64>(f: F, t: u64, k: int)
    requires
        rounding::is_rounding(f),
        matrix_laws::is_count(t, k),
        k == 0 || k == 1,
    ensures
        matrix_laws::is_count(displace::fade(f, t), k),
{
    noise_numbers();
    matrix_laws::times_counts(f, t, k, t, k, 1, 1);
    matrix_laws::times_counts(f, arith::product(f, t, t), k * k, t, k, 1, 1);
    matrix_laws::times_counts(f, t, k, displace::SIX, 6, 1, 6);
    let s = arith::product(f, t, displace::SIX);
    matrix_laws::minus_counts(f, s, k * 6, displace::FIFTEEN, 15);
    let inner = arith::difference(f, s, displace::FIFTEEN);
    matrix_laws::times_counts(f, t, k, inner, k * 6 - 15, 1, 15);
    let u = arith::product(f, t, inner);
    matrix_laws::plus_counts(f, u, k * (k * 6 - 15), displace::TEN, 10);
    let v = arith::sum(f, u, displace::TEN);
    let cube = arith::product(f, arith::product(f, t, t), t);
    if k == 0 {
        matrix_laws::times_counts(f, cube, 0, v, 10, 1, 10);
    } else {
        matrix_laws::times_counts(f, cube, 1, v, 1, 1, 10);
    }
}

/// A mixture by nothing is the first number.
proof fn mixed_by_nothing<F: Fn(Op, u64, u64) -> u64>(f: F, a: u64, i: int, b: u64, j: int, t: u64)
    requires
        rounding::is_rounding(f),
        matrix_laws::is_count(a, i) && matrix_laws::is_within(i, 0x1000),
        matrix_laws::is_count(b, j) && matrix_laws::is_within(j, 0x1000),
        matrix_laws::is_count(t, 0),
    ensures
        matrix_laws::is_count(displace::mixed(f, a, b, t), i),
{
    matrix_laws::minus_counts(f, b, j, a, i);
    let d = arith::difference(f, b, a);
    matrix_laws::times_counts(f, d, j - i, t, 0, 0x2000, 1);
    assert((j - i) * 0 == 0);
    matrix_laws::plus_counts(f, a, i, arith::product(f, d, t), 0);
}

/// The components of the corners of a cell, and of gradients, are whole.
proof fn components_count(n: i8)
    requires
        -1 <= n <= 1,
    ensures
        matrix_laws::is_count(displace::component(n), n as int),
{
    matrix_laws::small_counts();
    assert(displace::MINUS_ONE == double::negated(ONE));
    rounding::negation_is_exact(ONE);
    let w = pow2(1074) as int;
    assert((-1) * w == -(1 * w)) by (nonlinear_arith);
}

/// The share of a corner, where the point is the lower corner of its cell.
proof fn shares_count<F: Fn(Op, u64, u64) -> u64>(f: F, cell: (i64, i64, i64), at: Vec3, k: int) -> (s: int)
    requires
        rounding::is_rounding(f),
        matrix_laws::is_arrow(at, 0, 0, 0, 0),
        0 <= k < 8,
    ensures
        matrix_laws::is_count(displace::corner_share(f, cell, at, k), s),
        matrix_laws::is_within(s, 0x1000),
        k == 0 ==> s == 0,
{
    let c = displace::cube_corner(k);
    let key = displace::lattice_key(
        displace::stepped(cell.0, c.0),
        displace::stepped(cell.1, c.1),
        displace::stepped(cell.2, c.2),
    );
    let g = displace::edge_direction(displace::hashed(key) as int % 12);
    components_count(c.0);
    components_count(c.1);
    components_count(c.2);
    components_count(g.0);
    components_count(g.1);
    components_count(g.2);
    let v = Vec3::of(
        displace::component(c.0),
        displace::component(c.1),
        displace::component(c.2),
    );
    let (i, j, l) = (c.0 as int, c.1 as int, c.2 as int);
    matrix_laws::minus_counts(f, at.x, 0, v.x, i);
    matrix_laws::minus_counts(f, at.y, 0, v.y, j);
    matrix_laws::minus_counts(f, at.z, 0, v.z, l);
    let d = arith::vector_difference(f, at, v);
    let w = Vec3::of(
        displace::component(g.0),
        displace::component(g.1),
        displace::component(g.2),
    );
    let (p, q, r) = (g.0 as int, g.1 as int, g.2 as int);
    matrix_laws::dots_count(f, w, p, q, r, d, 0 - i, 0 - j, 0 - l);
    let s = p * (0 - i) + q * (0 - j) + r * (0 - l);
    unit_product(p, 0 - i);
    unit_product(q, 0 - j);
    unit_product(r, 0 - l);
    if k == 0 {
        assert(p * 0 == 0 && q * 0 == 0 && r * 0 == 0);
    }
    s
}

proof fn unit_product(i: int, j: int)
    requires
        -1 <= i <= 1 && -1 <= j <= 1,
    ensures
        -1 <= i * j <= 1,
{
    assert(-1 <= i * j <= 1) by (nonlinear_arith)
        requires
            -1 <= i <= 1 && -1 <= j <= 1,
    ;
}

/// Noise is nothing at the points of its lattice.
pub proof fn noise_is_nothing_on_its_lattice<F: Fn(Op, u64, u64) -> u64>(
    f: F,
    p: Vec3,
    x: int,
    y: int,
    z: int,
)
    requires
        rounding::is_rounding(f),
        matrix_laws::is_arrow(p, x, y, z, 0x1_0000_0000),
        arith::value(f, Op::Floor, p.x, 0) == p.x,
        arith::value(f, Op::Floor, p.y, 0) == p.y,
        arith::value(f, Op::Floor, p.z, 0) == p.z,
    ensures
        matrix_laws::is_count(displace::noise(f, p), 0),
{
    let low = displace::floors(f, p);
    matrix_laws::minus_counts(f, p.x, x, p.x, x);
    matrix_laws::minus_counts(f, p.y, y, p.y, y);
    matrix_laws::minus_counts(f, p.z, z, p.z, z);
    let at = arith::vector_difference(f, p, low);
    let cell = (
        double::cut_signed(low.x) as i64,
        double::cut_signed(low.y) as i64,
        double::cut_signed(low.z) as i64,
    );
    fade_counts(f, at.x, 0);
    fade_counts(f, at.y, 0);
    fade_counts(f, at.z, 0);
    let (u, v, w) = (displace::fade(f, at.x), displace::fade(f, at.y), displace::fade(f, at.z));
    let s0 = shares_count(f, cell, at, 0);
    let s1 = shares_count(f, cell, at, 1);
    let s2 = shares_count(f, cell, at, 2);
    let s3 = shares_count(f, cell, at, 3);
    let s4 = shares_count(f, cell, at, 4);
    let s5 = shares_count(f, cell, at, 5);
    let s6 = shares_count(f, cell, at, 6);
    let s7 = shares_count(f, cell, at, 7);
    let share = |k: int| displace::corner_share(f, cell, at, k);
    mixed_by_nothing(f, share(0), s0, share(1), s1, u);
    mixed_by_nothing(f, share(2), s2, share(3), s3, u);
    mixed_by_nothing(f, share(4), s4, share(5), s5, u);
    mixed_by_nothing(f, share(6), s6, share(7), s7, u);
    let a = displace::mixed(f, share(0), share(1), u);
    let b = displace::mixed(f, share(2), share(3), u);
    let c = displace::mixed(f, share(4), share(5), u);
    let d = displace::mixed(f, share(6), share(7), u);
    mixed_by_nothing(f, a, s0, b, s2, v);
    mixed_by_nothing(f, c, s4, d, s6, v);
    mixed_by_nothing(f, displace::mixed(f, a, b, v), s0, displace::mixed(f, c, d, v), s4, w);
}

} // verus!
