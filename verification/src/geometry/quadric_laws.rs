//! What rays meet of quadrics and triangles: points on the surface, and normals at right angles
//! to it.

use crate::arith;
use crate::arith::Op;
use crate::double;
use crate::geometry::cone;
use crate::geometry::cone::Cone;
use crate::geometry::cylinder;
use crate::geometry::cylinder::Cylinder;
use crate::geometry::extra;
use crate::geometry::extra::{Disk, Paraboloid};
use crate::geometry::sphere;
use crate::geometry::sphere::Sphere;
use crate::geometry::traits;
use crate::geometry::traits::Placement;
use crate::math::matrix;
use crate::math::point;
use crate::math::{Matrix4, Point3, Vec3, EPSILON, FOUR, ONE, TWO, ZERO};
use crate::near;
use crate::raytracer::intersection::Intersection;
use crate::raytracer::ray;
use crate::raytracer::ray::Ray;
use crate::rounding;
use vstd::arithmetic::power2::*;
use vstd::prelude::*;

verus! {

// ---- directions ------------------------------------------------------------

/// Whether a vector is another divided by a positive number, each component rounded.
pub open spec fn is_divided(n: Vec3, v: Vec3, l: int) -> bool {
    &&& l > 0
    &&& rounding::rounds_to(n.x, near::exact(v.x) * rounding::whole(), l)
    &&& rounding::rounds_to(n.y, near::exact(v.y) * rounding::whole(), l)
    &&& rounding::rounds_to(n.z, near::exact(v.z) * rounding::whole(), l)
}

/// Whether a vector has the direction of another: it is a positive part of it, or nothing, where
/// the other is too long to be measured.
pub open spec fn is_along(n: Vec3, v: Vec3) -> bool {
    (exists|l: int| #[trigger] is_divided(n, v, l)) || (rounding::is_nought(n.x)
        && rounding::is_nought(n.y) && rounding::is_nought(n.z))
}

/// Whether the components of a vector are finite.
pub open spec fn is_vector(v: Vec3) -> bool {
    double::is_finite(v.x) && double::is_finite(v.y) && double::is_finite(v.z)
}

/// A number is itself, rounded.
proof fn numbers_round_to_themselves(a: u64)
    requires
        double::is_finite(a),
    ensures
        rounding::rounds_to(a, near::exact(a) * rounding::whole(), rounding::whole()),
{
    let w = rounding::whole();
    lemma_pow2_pos(1074);
    assert forall|c: u64|
        double::is_finite(c) implies (near::exact(a) * w <= #[trigger] near::exact(c) * w
        ==> double::at_most(a, c)) && (near::exact(c) * w <= near::exact(a) * w ==> double::at_most(
        c,
        a,
    )) by {
        rounding::order_tells(a, c);
        rounding::order_tells(c, a);
        let (x, y) = (near::exact(a), near::exact(c));
        assert(x * w <= y * w ==> x <= y) by (nonlinear_arith)
            requires
                w > 0,
        ;
        assert(y * w <= x * w ==> y <= x) by (nonlinear_arith)
            requires
                w > 0,
        ;
    }
}

/// The unit of a vector has its direction; and a component that is nothing stays nothing.
pub proof fn units_point_along<F: Fn(Op, u64, u64) -> u64>(f: F, v: Vec3)
    requires
        rounding::is_rounding(f),
    ensures
        is_vector(v) ==> is_along(arith::unit(f, v), v),
        rounding::is_nought(v.x) ==> rounding::is_nought(arith::unit(f, v).x),
        rounding::is_nought(v.y) ==> rounding::is_nought(arith::unit(f, v).y),
        rounding::is_nought(v.z) ==> rounding::is_nought(arith::unit(f, v).z),
{
    let l = arith::vector_length(f, v);
    let n = arith::unit(f, v);
    rounding::nought_and_one();
    if double::below(ZERO, l) {
        if rounding::is_nought(v.x) {
            rounding::quotient_of_nought(f, v.x, l);
        }
        if rounding::is_nought(v.y) {
            rounding::quotient_of_nought(f, v.y, l);
        }
        if rounding::is_nought(v.z) {
            rounding::quotient_of_nought(f, v.z, l);
        }
        if is_vector(v) {
            reveal(rounding::is_rounding);
            if double::is_finite(l) {
                rounding::order_tells(ZERO, l);
                assert(is_divided(n, v, near::exact(l)));
            } else {
                assert(rounding::is_infinite(l));
            }
        }
    } else if is_vector(v) {
        numbers_round_to_themselves(v.x);
        numbers_round_to_themselves(v.y);
        numbers_round_to_themselves(v.z);
        lemma_pow2_pos(1074);
        assert(is_divided(n, v, rounding::whole()));
    }
}

/// A vector along another has no component of the opposite sign.
pub proof fn directions_keep_signs(n: Vec3, v: Vec3)
    requires
        is_along(n, v),
        is_vector(n),
    ensures
        near::exact(v.x) >= 0 ==> near::exact(n.x) >= 0,
        near::exact(v.x) <= 0 ==> near::exact(n.x) <= 0,
        near::exact(v.y) >= 0 ==> near::exact(n.y) >= 0,
        near::exact(v.y) <= 0 ==> near::exact(n.y) <= 0,
        near::exact(v.z) >= 0 ==> near::exact(n.z) >= 0,
        near::exact(v.z) <= 0 ==> near::exact(n.z) <= 0,
{
    if exists|l: int| #[trigger] is_divided(n, v, l) {
        let l = choose|l: int| #[trigger] is_divided(n, v, l);
        sign_is_kept(n.x, v.x, l);
        sign_is_kept(n.y, v.y, l);
        sign_is_kept(n.z, v.z, l);
    }
}

proof fn sign_is_kept(r: u64, a: u64, l: int)
    requires
        l > 0,
        rounding::rounds_to(r, near::exact(a) * rounding::whole(), l),
        double::is_finite(r),
    ensures
        near::exact(a) >= 0 ==> near::exact(r) >= 0,
        near::exact(a) <= 0 ==> near::exact(r) <= 0,
{
    rounding::nought_and_one();
    lemma_pow2_pos(1074);
    let (x, w) = (near::exact(a), rounding::whole());
    assert(near::exact(ZERO) * l == 0) by (nonlinear_arith)
        requires
            near::exact(ZERO) == 0,
    ;
    assert(x >= 0 ==> x * w >= 0) by (nonlinear_arith)
        requires
            w > 0,
    ;
    assert(x <= 0 ==> x * w <= 0) by (nonlinear_arith)
        requires
            w > 0,
    ;
    rounding::order_tells(ZERO, r);
    rounding::order_tells(r, ZERO);
}

// ---- from the space of a primitive to the world ----------------------------

/// A normal of the space of a primitive, in the world: by the inverse transposed.
pub open spec fn carried<F: Fn(Op, u64, u64) -> u64>(f: F, place: Placement, n: Vec3) -> Vec3 {
    arith::unit(f, arith::unit(f, matrix::normal_of(f, place.inverse_transform, n)))
}

/// Whether a hit is that of a point with a normal, of the space of a primitive: it stands where
/// the transform takes the point, with the normal carried over, as far off as that is, and of the
/// primitive's material.
pub open spec fn is_hit_at<F: Fn(Op, u64, u64) -> u64>(
    f: F,
    place: Placement,
    r: Ray,
    h: Intersection,
    p: Point3,
    n: Vec3,
) -> bool {
    &&& h.point == matrix::point_of(f, place.transform, p)
    &&& h.normal == carried(f, place, n)
    &&& h.t == point::distance(f, h.point, r.origin)
    &&& h.material_id == place.material_id
}

/// Whether a point is as far along a line as a number says.
pub open spec fn is_on_line<F: Fn(Op, u64, u64) -> u64>(f: F, o: Point3, d: Vec3, p: Point3, t: u64) -> bool {
    &&& p.x == arith::sum(f, o.x, arith::product(f, d.x, t))
    &&& p.y == arith::sum(f, o.y, arith::product(f, d.y, t))
    &&& p.z == arith::sum(f, o.z, arith::product(f, d.z, t))
}

/// Whether the coordinates of a point are finite.
pub open spec fn is_place(p: Point3) -> bool {
    double::is_finite(p.x) && double::is_finite(p.y) && double::is_finite(p.z)
}

// ---- cylinders -------------------------------------------------------------

/// A normal of a wall about the z axis at a point: at right angles to the axis, and pointing away
/// from it as the point lies.
pub open spec fn is_wall_normal(n: Vec3, p: Point3) -> bool {
    &&& rounding::is_nought(n.z)
    &&& is_place(p) ==> is_along(n, Vec3::of(p.x, p.y, ZERO))
}

/// Whether a hit is one of a wall about the z axis, between two heights.
pub open spec fn is_wall_hit<F: Fn(Op, u64, u64) -> u64>(
    f: F,
    s: Cylinder,
    r: Ray,
    h: Intersection,
    p: Point3,
    n: Vec3,
    t: u64,
) -> bool {
    let inner = sphere::inner_ray(f, s.place, r);
    &&& is_hit_at(f, s.place, r, h, p, n)
    &&& is_wall_normal(n, p)
    &&& is_on_line(f, inner.origin, inner.direction, p, t)
    &&& cylinder::cylinder_reach(f, s, inner) == Some(t)
    &&& double::below(EPSILON, t)
    &&& !double::below(p.z, s.zmin) && !double::below(s.zmax, p.z)
}

/// What a ray meets of a cylinder is a point of the ray between the ends of the cylinder, with a
/// normal at right angles to the axis, wherever the cylinder is placed.
pub proof fn cylinders_are_met_on_their_wall<F: Fn(Op, u64, u64) -> u64>(
    f: F,
    s: Cylinder,
    r: Ray,
    h: Intersection,
)
    requires
        rounding::is_rounding(f),
        cylinder::cylinder_met(f, s, r) == Some(h),
    ensures
        exists|p: Point3, n: Vec3, t: u64| #[trigger] is_wall_hit(f, s, r, h, p, n, t),
{
    let inner = sphere::inner_ray(f, s.place, r);
    let t = cylinder::cylinder_reach(f, s, inner)->0;
    let p = ray::along(f, inner.origin, inner.direction, t);
    let v = Vec3::of(p.x, p.y, ZERO);
    let n = arith::unit(f, v);
    rounding::nought_and_one();
    units_point_along(f, v);
    assert(is_wall_hit(f, s, r, h, p, n, t));
}

/// The identity is what it is.
proof fn identity_carries<F: Fn(Op, u64, u64) -> u64>(f: F, n: Vec3)
    requires
        rounding::is_rounding(f),
        is_vector(matrix::normal_of(f, Matrix4::identity_of(), n)),
    ensures
        is_vector(n),
        ({
            let m = matrix::normal_of(f, Matrix4::identity_of(), n);
            &&& near::exact(m.x) == near::exact(n.x)
            &&& near::exact(m.y) == near::exact(n.y)
            &&& near::exact(m.z) == near::exact(n.z)
        }),
{
    rounding::nought_and_one();
    let m = matrix::normal_of(f, Matrix4::identity_of(), n);
    assert(is_vector(n)) by {
        reveal(rounding::is_rounding);
    }
    entry_carried(f, ONE, n.x, ZERO, n.y, ZERO, n.z);
    entry_carried(f, ZERO, n.x, ONE, n.y, ZERO, n.z);
    entry_carried(f, ZERO, n.x, ZERO, n.y, ONE, n.z);
}

/// A row of the identity times a vector.
proof fn entry_carried<F: Fn(Op, u64, u64) -> u64>(
    f: F,
    a: u64,
    x: u64,
    b: u64,
    y: u64,
    c: u64,
    z: u64,
)
    requires
        rounding::is_rounding(f),
        double::is_finite(x) && double::is_finite(y) && double::is_finite(z),
        (a == ONE && b == ZERO && c == ZERO) || (a == ZERO && b == ONE && c == ZERO) || (a == ZERO && b
            == ZERO && c == ONE),
    ensures
        ({
            let r = arith::sum(
                f,
                arith::sum(f, arith::product(f, a, x), arith::product(f, b, y)),
                arith::product(f, c, z),
            );
            &&& double::is_finite(r)
            &&& near::exact(r) == near::exact(
                if a == ONE {
                    x
                } else if b == ONE {
                    y
                } else {
                    z
                },
            )
        }),
{
    rounding::nought_and_one();
    let (p, q, r) = (arith::product(f, a, x), arith::product(f, b, y), arith::product(f, c, z));
    if a == ONE {
        rounding::product_with_one(f, x, a);
        rounding::product_with_nought(f, y, b);
        rounding::product_with_nought(f, z, c);
        rounding::sum_with_nought(f, p, q);
        rounding::sum_with_nought(f, arith::sum(f, p, q), r);
    } else if b == ONE {
        rounding::product_with_nought(f, x, a);
        rounding::product_with_one(f, y, b);
        rounding::product_with_nought(f, z, c);
        rounding::sum_with_nought(f, q, p);
        rounding::sum_with_nought(f, arith::sum(f, p, q), r);
    } else {
        rounding::product_with_nought(f, x, a);
        rounding::product_with_nought(f, y, b);
        rounding::product_with_one(f, z, c);
        rounding::sum_with_nought(f, q, p);
        rounding::sum_with_nought(f, r, arith::sum(f, p, q));
    }
}

/// The normal that a cylinder under the identity hands out is at right angles to its axis.
pub proof fn upright_cylinders_have_level_normals<F: Fn(Op, u64, u64) -> u64>(
    f: F,
    s: Cylinder,
    r: Ray,
    h: Intersection,
)
    requires
        rounding::is_rounding(f),
        s.place.inverse_transform == Matrix4::identity_of(),
        cylinder::cylinder_met(f, s, r) == Some(h),
        is_vector(h.normal),
    ensures
        near::exact(h.normal.z) == 0,
{
    cylinders_are_met_on_their_wall(f, s, r, h);
    let (p, n, t) = choose|p: Point3, n: Vec3, t: u64| #[trigger]
        is_wall_hit(f, s, r, h, p, n, t);
    let m = matrix::normal_of(f, Matrix4::identity_of(), n);
    let k = arith::unit(f, m);
    units_are_vectors(f, k);
    units_are_vectors(f, m);
    identity_carries(f, n);
    units_point_along(f, m);
    units_point_along(f, k);
}

/// A unit that is a vector is that of one.
proof fn units_are_vectors<F: Fn(Op, u64, u64) -> u64>(f: F, v: Vec3)
    requires
        rounding::is_rounding(f),
        is_vector(arith::unit(f, v)),
    ensures
        is_vector(v),
{
    reveal(rounding::is_rounding);
}

// ---- spheres, disks and cones ----------------------------------------------

/// Whether a hit is one of a sphere about the origin.
pub open spec fn is_ball_hit<F: Fn(Op, u64, u64) -> u64>(
    f: F,
    s: Sphere,
    r: Ray,
    h: Intersection,
    p: Point3,
    n: Vec3,
    t: u64,
) -> bool {
    let inner = sphere::inner_ray(f, s.place, r);
    &&& is_hit_at(f, s.place, r, h, p, n)
    &&& is_place(p) ==> is_along(n, Vec3::of(p.x, p.y, p.z))
    &&& is_on_line(f, inner.origin, inner.direction, p, t)
    &&& h.front_face == double::below(
        arith::dot_product(
            f,
            r.direction,
            arith::unit(f, matrix::normal_of(f, s.place.inverse_transform, n)),
        ),
        ZERO,
    )
    &&& sphere::sphere_reach(f, s, inner) == Some(t)
    &&& double::below(EPSILON, t)
    &&& !double::below(p.z, s.zmin) && !double::below(s.zmax, p.z)
}

/// What a ray meets of a sphere is a point of the ray between the ends of the sphere, with a
/// normal that points away from the centre.
pub proof fn spheres_are_met_with_radial_normals<F: Fn(Op, u64, u64) -> u64>(
    f: F,
    s: Sphere,
    r: Ray,
    h: Intersection,
)
    requires
        rounding::is_rounding(f),
        sphere::sphere_met(f, s, r) == Some(h),
    ensures
        exists|p: Point3, n: Vec3, t: u64| #[trigger] is_ball_hit(f, s, r, h, p, n, t),
{
    let inner = sphere::inner_ray(f, s.place, r);
    let t = sphere::sphere_reach(f, s, inner)->0;
    let p = ray::along(f, inner.origin, inner.direction, t);
    let v = point::between(f, p, Point3::of(ZERO, ZERO, ZERO));
    let n = arith::unit(f, v);
    rounding::nought_and_one();
    units_point_along(f, v);
    if is_place(p) {
        rounding::sum_with_nought(f, p.x, ZERO);
        rounding::sum_with_nought(f, p.y, ZERO);
        rounding::sum_with_nought(f, p.z, ZERO);
        same_direction(n, v, Vec3::of(p.x, p.y, p.z));
    }
    assert(is_ball_hit(f, s, r, h, p, n, t));
}

/// Equal numbers give equal directions.
pub proof fn same_direction(n: Vec3, v: Vec3, w: Vec3)
    requires
        is_along(n, v),
        near::exact(v.x) == near::exact(w.x),
        near::exact(v.y) == near::exact(w.y),
        near::exact(v.z) == near::exact(w.z),
    ensures
        is_along(n, w),
{
    if exists|l: int| #[trigger] is_divided(n, v, l) {
        let l = choose|l: int| #[trigger] is_divided(n, v, l);
        assert(is_divided(n, w, l));
    }
}

/// Whether a hit is one of a disk about the z axis.
pub open spec fn is_disk_hit<F: Fn(Op, u64, u64) -> u64>(
    f: F,
    s: Disk,
    r: Ray,
    h: Intersection,
    p: Point3,
    n: Vec3,
    t: u64,
) -> bool {
    let (o, d) = traits::local_ray(f, s.place, r);
    &&& is_hit_at(f, s.place, r, h, p, n)
    &&& rounding::is_nought(n.x) && rounding::is_nought(n.y)
    &&& double::is_finite(n.z) && near::exact(n.z) == rounding::whole()
    &&& is_on_line(f, o, d, p, t)
    &&& !double::at_most(t, EPSILON)
    &&& !double::below(
        arith::product(f, s.radius, s.radius),
        arith::sum(f, arith::product(f, p.x, p.x), arith::product(f, p.y, p.y)),
    )
}

/// What a ray meets of a disk is a point of the ray no farther from the axis than the radius, with
/// the axis for its normal.
pub proof fn disks_are_met_with_the_axis_for_normal<F: Fn(Op, u64, u64) -> u64>(
    f: F,
    s: Disk,
    r: Ray,
    h: Intersection,
)
    requires
        rounding::is_rounding(f),
        extra::disk_met(f, s, r) == Some(h),
    ensures
        exists|p: Point3, n: Vec3, t: u64| #[trigger] is_disk_hit(f, s, r, h, p, n, t),
{
    let (o, d) = traits::local_ray(f, s.place, r);
    let t = extra::level_reach(f, o, d, s.height)->0;
    let p = ray::along(f, o, d, t);
    rounding::nought_and_one();
    assert(is_disk_hit(f, s, r, h, p, Vec3::of(ZERO, ZERO, ONE), t));
}

/// How far along a line a level is: the height left to go, over how fast the line climbs.
pub proof fn levels_are_reached<F: Fn(Op, u64, u64) -> u64>(
    f: F,
    o: Point3,
    d: Vec3,
    height: u64,
    i: int,
    j: int,
    k: int,
    t: u64,
)
    requires
        rounding::is_rounding(f),
        rounding::is_step(o.z, i, 1074) && -1000 <= i <= 1000,
        rounding::is_step(d.z, j, 1074) && -1000 <= j <= 1000 && j != 0,
        rounding::is_step(height, i + k * j, 1074) && -1000 <= k <= 1000,
        extra::level_reach(f, o, d, height) == Some(t),
    ensures
        rounding::is_step(t, k, 1074),
{
    assert(-1000_000 <= k * j <= 1000_000) by (nonlinear_arith)
        requires
            -1000 <= k <= 1000,
            -1000 <= j <= 1000,
    ;
    rounding::difference_of_steps(f, height, i + k * j, o.z, i, 1074);
    rounding::quotient_of_steps(f, arith::difference(f, height, o.z), k, 1074, d.z, j, 1074);
}

/// Whether a hit is one of a cone about the z axis: the normal points away from the axis, and
/// down by the slope where the radius grows upwards.
pub open spec fn is_cone_hit<F: Fn(Op, u64, u64) -> u64>(
    f: F,
    s: Cone,
    r: Ray,
    h: Intersection,
    p: Point3,
    n: Vec3,
    v: Vec3,
    t: u64,
) -> bool {
    let inner = sphere::inner_ray(f, s.place, r);
    &&& is_hit_at(f, s.place, r, h, p, n)
    &&& is_vector(v) ==> is_along(n, v)
    &&& near::exact(v.z) == -near::exact(arith::quotient(f, s.radius, s.height))
    &&& cone::cone_reach(f, s, inner) == Some(t)
    &&& is_on_line(f, inner.origin, inner.direction, p, t)
    &&& double::below(EPSILON, t)
    &&& double::at_most(ZERO, p.z) && double::at_most(p.z, s.height)
    &&& v.x == arith::quotient(
        f,
        p.x,
        arith::value(
            f,
            Op::Root,
            arith::sum(f, arith::product(f, p.x, p.x), arith::product(f, p.y, p.y)),
            0,
        ),
    )
    &&& v.y == arith::quotient(
        f,
        p.y,
        arith::value(
            f,
            Op::Root,
            arith::sum(f, arith::product(f, p.x, p.x), arith::product(f, p.y, p.y)),
            0,
        ),
    )
}

/// What a ray meets of a cone is a point of the ray between the tip and the base, with a normal
/// that is at right angles to the slant: as far down as the slant goes out.
pub proof fn cones_are_met_with_slanted_normals<F: Fn(Op, u64, u64) -> u64>(
    f: F,
    s: Cone,
    r: Ray,
    h: Intersection,
)
    requires
        rounding::is_rounding(f),
        cone::cone_met(f, s, r) == Some(h),
    ensures
        exists|p: Point3, n: Vec3, v: Vec3, t: u64| #[trigger] is_cone_hit(f, s, r, h, p, n, v, t),
{
    let inner = sphere::inner_ray(f, s.place, r);
    let t = cone::cone_reach(f, s, inner)->0;
    let p = ray::along(f, inner.origin, inner.direction, t);
    let ring = arith::value(
        f,
        Op::Root,
        arith::sum(f, arith::product(f, p.x, p.x), arith::product(f, p.y, p.y)),
        0,
    );
    let k = arith::quotient(f, s.radius, s.height);
    let v = Vec3::of(
        arith::quotient(f, p.x, ring),
        arith::quotient(f, p.y, ring),
        double::negated(k),
    );
    let n = arith::unit(f, v);
    rounding::negation_is_exact(k);
    units_point_along(f, v);
    assert(is_cone_hit(f, s, r, h, p, n, v, t));
}

/// Whether a hit is one of a paraboloid about the z axis: the normal is the gradient of
/// `x^2 + y^2 - k z`, where `k` is the square of the radius at the top over the top.
pub open spec fn is_bowl_hit<F: Fn(Op, u64, u64) -> u64>(
    f: F,
    s: Paraboloid,
    r: Ray,
    h: Intersection,
    p: Point3,
    n: Vec3,
    v: Vec3,
    t: u64,
) -> bool {
    let (o, d) = traits::local_ray(f, s.place, r);
    &&& is_hit_at(f, s.place, r, h, p, n)
    &&& is_vector(v) ==> is_along(n, v)
    &&& double::is_finite(p.x) ==> rounding::rounds_to(v.x, 2 * near::exact(p.x), 1)
    &&& double::is_finite(p.y) ==> rounding::rounds_to(v.y, 2 * near::exact(p.y), 1)
    &&& near::exact(v.z) == -near::exact(
        arith::quotient(f, arith::product(f, s.rmax, s.rmax), s.zmax),
    )
    &&& is_on_line(f, o, d, p, t)
    &&& !double::at_most(t, EPSILON)
    &&& !double::below(p.z, s.zmin) && !double::below(s.zmax, p.z)
}

/// Twice a number.
proof fn doubles_round<F: Fn(Op, u64, u64) -> u64>(f: F, a: u64)
    requires
        rounding::is_rounding(f),
        double::is_finite(a),
    ensures
        rounding::rounds_to(arith::product(f, TWO, a), 2 * near::exact(a), 1),
{
    reveal(rounding::is_rounding);
    whole_numbers();
    let (x, w) = (near::exact(a), rounding::whole());
    let r = arith::product(f, TWO, a);
    lemma_pow2_pos(1074);
    assert(near::exact(TWO) * x == (2 * x) * w) by (nonlinear_arith)
        requires
            near::exact(TWO) == 2 * w,
    ;
    assert forall|c: u64|
        double::is_finite(c) implies (2 * x <= #[trigger] near::exact(c) * 1 ==> double::at_most(r, c))
        && (near::exact(c) * 1 <= 2 * x ==> double::at_most(c, r)) by {
        let y = near::exact(c);
        assert(2 * x <= y ==> (2 * x) * w <= y * w) by (nonlinear_arith)
            requires
                w > 0,
        ;
        assert(y <= 2 * x ==> y * w <= (2 * x) * w) by (nonlinear_arith)
            requires
                w > 0,
        ;
        assert(near::exact(c) * w == y * w);
    }
}

proof fn whole_numbers()
    ensures
        rounding::is_step(TWO, 2, 1074),
        rounding::is_step(FOUR, 4, 1074),
        rounding::is_step(ONE, 1, 1074),
{
    lemma2_to64();
    lemma2_to64_rest();
    rounding::nought_and_one();
    assert(double::significand(TWO) == 2 * 0x8_0000_0000_0000);
    lemma_pow2_adds(51, 1023);
    assert(double::significand(FOUR) == 4 * 0x4_0000_0000_0000);
    lemma_pow2_adds(50, 1024);
    assert(2 * 0x8_0000_0000_0000 * pow2(1023) == 2 * (0x8_0000_0000_0000 * pow2(1023)))
        by (nonlinear_arith);
    assert(4 * 0x4_0000_0000_0000 * pow2(1024) == 4 * (0x4_0000_0000_0000 * pow2(1024)))
        by (nonlinear_arith);
}

/// What a ray meets of a paraboloid is a point of the ray between its ends, with the gradient for
/// its normal.
pub proof fn paraboloids_are_met_with_gradients<F: Fn(Op, u64, u64) -> u64>(
    f: F,
    s: Paraboloid,
    r: Ray,
    h: Intersection,
)
    requires
        rounding::is_rounding(f),
        extra::paraboloid_met(f, s, r) == Some(h),
    ensures
        exists|p: Point3, n: Vec3, v: Vec3, t: u64| #[trigger] is_bowl_hit(f, s, r, h, p, n, v, t),
{
    let (o, d) = traits::local_ray(f, s.place, r);
    let k = arith::quotient(f, arith::product(f, s.rmax, s.rmax), s.zmax);
    let a = arith::sum(f, arith::product(f, d.x, d.x), arith::product(f, d.y, d.y));
    let b = arith::difference(
        f,
        arith::product(
            f,
            TWO,
            arith::sum(f, arith::product(f, o.x, d.x), arith::product(f, o.y, d.y)),
        ),
        arith::product(f, k, d.z),
    );
    let c = arith::difference(
        f,
        arith::sum(f, arith::product(f, o.x, o.x), arith::product(f, o.y, o.y)),
        arith::product(f, k, o.z),
    );
    let ts = extra::candidates(f, a, b, c);
    let t = extra::first_on_band(f, o, d, s.zmin, s.zmax, s.thetamax, ts)->0;
    first_is_on_band(f, o, d, s.zmin, s.zmax, s.thetamax, ts);
    let p = ray::along(f, o, d, t);
    let v = Vec3::of(
        arith::product(f, TWO, p.x),
        arith::product(f, TWO, p.y),
        double::negated(k),
    );
    let n = arith::unit(f, v);
    rounding::negation_is_exact(k);
    units_point_along(f, v);
    if double::is_finite(p.x) {
        doubles_round(f, p.x);
    }
    if double::is_finite(p.y) {
        doubles_round(f, p.y);
    }
    assert(is_bowl_hit(f, s, r, h, p, n, v, t));
}

proof fn first_is_on_band<F: Fn(Op, u64, u64) -> u64>(
    f: F,
    o: Point3,
    d: Vec3,
    low: u64,
    high: u64,
    thetamax: u64,
    ts: Seq<u64>,
)
    ensures
        extra::first_on_band(f, o, d, low, high, thetamax, ts) matches Some(t) ==> extra::on_band(
            f,
            o,
            d,
            low,
            high,
            thetamax,
            t,
        ) && ts.contains(t),
    decreases ts.len(),
{
    if ts.len() > 0 {
        if extra::on_band(f, o, d, low, high, thetamax, ts[0]) {
            assert(ts.contains(ts[0]));
        } else {
            first_is_on_band(f, o, d, low, high, thetamax, ts.skip(1));
            if let Some(t) = extra::first_on_band(f, o, d, low, high, thetamax, ts.skip(1)) {
                let k = ts.skip(1).index_of(t);
                assert(ts.skip(1).contains(t));
                assert(ts[k + 1] == t);
            }
        }
    }
}

// ---- where the surface is --------------------------------------------------

/// The roots of a quadratic equation with whole coefficients and whole roots solve it: what comes
/// first is the one with the root of the discriminant taken away.
pub proof fn roots_solve<F: Fn(Op, u64, u64) -> u64>(
    f: F,
    a: u64,
    b: u64,
    c: u64,
    i: int,
    j: int,
    k: int,
    q: int,
    m: int,
    n: int,
)
    requires
        rounding::is_rounding(f),
        rounding::is_step(a, i, 1074) && -0x10_0000 <= i <= 0x10_0000 && i != 0,
        rounding::is_step(b, j, 1074) && -0x10_0000 <= j <= 0x10_0000,
        rounding::is_step(c, k, 1074) && -0x10_0000 <= k <= 0x10_0000,
        q >= 0 && q * q == j * j - 4 * i * k,
        -j - q == m * (2 * i),
        -j + q == n * (2 * i),
    ensures
        traits::roots(f, a, b, c) matches Some((s, t)) && rounding::is_step(s, m, 1074)
            && rounding::is_step(t, n, 1074),
        i * (m * m) + j * m + k == 0,
        i * (n * n) + j * n + k == 0,
{
    whole_numbers();
    rounding::nought_and_one();
    assert(0 <= j * j <= 0x100_0000_0000) by (nonlinear_arith)
        requires
            -0x10_0000 <= j <= 0x10_0000,
    ;
    assert(-0x400_0000_0000 <= (4 * i) * k <= 0x400_0000_0000) by (nonlinear_arith)
        requires
            -0x10_0000 <= i <= 0x10_0000,
            -0x10_0000 <= k <= 0x10_0000,
    ;
    assert(4 * i * k == (4 * i) * k);
    rounding::product_of_steps(f, b, j, 1074, b, j, 1074);
    rounding::product_of_steps(f, FOUR, 4, 1074, a, i, 1074);
    rounding::product_of_steps(f, arith::product(f, FOUR, a), 4 * i, 1074, c, k, 1074);
    let d = arith::difference(
        f,
        arith::product(f, b, b),
        arith::product(f, arith::product(f, FOUR, a), c),
    );
    rounding::difference_of_steps(
        f,
        arith::product(f, b, b),
        j * j,
        arith::product(f, arith::product(f, FOUR, a), c),
        (4 * i) * k,
        1074,
    );
    assert(q <= 0x40_0000) by (nonlinear_arith)
        requires
            q >= 0,
            q * q <= 0x500_0000_0000,
    ;
    rounding::root_of_steps(f, d, q, 1074, 1074);
    rounding::order_tells(d, ZERO);
    lemma_pow2_pos(1074);
    assert((q * q) * pow2(1074) >= 0) by (nonlinear_arith);
    let s = arith::value(f, Op::Root, d, 0);
    rounding::negation_is_exact(b);
    assert(-(j * pow2(1074)) == (-j) * pow2(1074)) by (nonlinear_arith);
    let e = double::negated(b);
    rounding::difference_of_steps(f, e, -j, s, q, 1074);
    rounding::sum_of_steps(f, e, -j, s, q, 1074);
    rounding::product_of_steps(f, TWO, 2, 1074, a, i, 1074);
    assert(-0x100_0000 <= m <= 0x100_0000) by (nonlinear_arith)
        requires
            -j - q == m * (2 * i),
            -0x10_0000 <= j <= 0x10_0000,
            0 <= q <= 0x40_0000,
            i != 0,
    ;
    assert(-0x100_0000 <= n <= 0x100_0000) by (nonlinear_arith)
        requires
            -j + q == n * (2 * i),
            -0x10_0000 <= j <= 0x10_0000,
            0 <= q <= 0x40_0000,
            i != 0,
    ;
    let two = arith::product(f, TWO, a);
    rounding::quotient_of_steps(f, arith::difference(f, e, s), m, 1074, two, 2 * i, 1074);
    rounding::quotient_of_steps(f, arith::sum(f, e, s), n, 1074, two, 2 * i, 1074);
    assert((-q) * (-q) == q * q) by (nonlinear_arith);
    solves(i, j, k, -q, m);
    solves(i, j, k, q, n);
}

/// What twice the first coefficient and the second say of a root.
proof fn solves(i: int, j: int, k: int, q: int, m: int)
    requires
        i != 0,
        q * q == j * j - 4 * i * k,
        -j + q == m * (2 * i),
    ensures
        i * (m * m) + j * m + k == 0,
{
    let x = m * (2 * i) + j;
    assert(x == q);
    assert(x * x == 4 * i * (i * (m * m) + j * m) + j * j) by (nonlinear_arith)
        requires
            x == m * (2 * i) + j,
    ;
    let r = i * (m * m) + j * m + k;
    assert(4 * i * r == 4 * i * (i * (m * m) + j * m) + 4 * i * k) by (nonlinear_arith)
        requires
            r == i * (m * m) + j * m + k,
    ;
    assert(4 * i * r == 0);
    assert(r == 0) by (nonlinear_arith)
        requires
            4 * i * r == 0,
            i != 0,
    ;
}

/// Whether a point and a direction have whole coordinates, none above a hundred.
pub open spec fn is_whole_ray(r: Ray, ox: int, oy: int, oz: int, dx: int, dy: int, dz: int) -> bool {
    &&& rounding::is_step(r.origin.x, ox, 1074) && rounding::is_step(r.origin.y, oy, 1074)
    &&& rounding::is_step(r.origin.z, oz, 1074)
    &&& rounding::is_step(r.direction.x, dx, 1074) && rounding::is_step(r.direction.y, dy, 1074)
    &&& rounding::is_step(r.direction.z, dz, 1074)
    &&& -100 <= ox <= 100 && -100 <= oy <= 100 && -100 <= oz <= 100
    &&& -100 <= dx <= 100 && -100 <= dy <= 100 && -100 <= dz <= 100
}

/// A sum of two products of small whole numbers.
proof fn pairs_sum<F: Fn(Op, u64, u64) -> u64>(
    f: F,
    a: u64,
    i: int,
    b: u64,
    j: int,
    c: u64,
    k: int,
    d: u64,
    l: int,
)
    requires
        rounding::is_rounding(f),
        rounding::is_step(a, i, 1074) && -100 <= i <= 100,
        rounding::is_step(b, j, 1074) && -100 <= j <= 100,
        rounding::is_step(c, k, 1074) && -100 <= k <= 100,
        rounding::is_step(d, l, 1074) && -100 <= l <= 100,
    ensures
        rounding::is_step(
            arith::sum(f, arith::product(f, a, b), arith::product(f, c, d)),
            i * j + k * l,
            1074,
        ),
        -20_000 <= i * j + k * l <= 20_000,
        -10_000 <= i * j <= 10_000,
{
    assert(-10_000 <= i * j <= 10_000) by (nonlinear_arith)
        requires
            -100 <= i <= 100,
            -100 <= j <= 100,
    ;
    assert(-10_000 <= k * l <= 10_000) by (nonlinear_arith)
        requires
            -100 <= k <= 100,
            -100 <= l <= 100,
    ;
    rounding::product_of_steps(f, a, i, 1074, b, j, 1074);
    rounding::product_of_steps(f, c, k, 1074, d, l, 1074);
    rounding::sum_of_steps(f, arith::product(f, a, b), i * j, arith::product(f, c, d), k * l, 1074);
}

/// The point of a line at a root of the equation of a wall is on the wall.
proof fn on_the_wall(ox: int, oy: int, dx: int, dy: int, r: int, m: int)
    requires
        (dx * dx + dy * dy) * (m * m) + (2 * (ox * dx + oy * dy)) * m + (ox * ox + oy * oy - r * r) == 0,
    ensures
        (ox + m * dx) * (ox + m * dx) + (oy + m * dy) * (oy + m * dy) == r * r,
{
    assert((ox + m * dx) * (ox + m * dx) == ox * ox + 2 * (ox * dx) * m + (dx * dx) * (m * m))
        by (nonlinear_arith);
    assert((oy + m * dy) * (oy + m * dy) == oy * oy + 2 * (oy * dy) * m + (dy * dy) * (m * m))
        by (nonlinear_arith);
    assert((dx * dx + dy * dy) * (m * m) == (dx * dx) * (m * m) + (dy * dy) * (m * m))
        by (nonlinear_arith);
    assert((2 * (ox * dx + oy * dy)) * m == 2 * (ox * dx) * m + 2 * (oy * dy) * m) by (nonlinear_arith);
}

/// Where a line with whole coordinates meets a cylinder at whole distances, it meets it on the
/// wall: the point there is as far from the axis as the radius. It is met at the nearer of the
/// two where that is ahead and on the cylinder.
pub proof fn cylinders_are_met_where_they_are<F: Fn(Op, u64, u64) -> u64>(
    f: F,
    s: Cylinder,
    ray: Ray,
    ox: int,
    oy: int,
    oz: int,
    dx: int,
    dy: int,
    dz: int,
    r: int,
    q: int,
    m: int,
    n: int,
)
    requires
        rounding::is_rounding(f),
        is_whole_ray(ray, ox, oy, oz, dx, dy, dz),
        rounding::is_step(s.radius, r, 1074) && 0 <= r <= 100,
        ({
            let (a, b) = (dx * dx + dy * dy, 2 * (ox * dx + oy * dy));
            let c = ox * ox + oy * oy - r * r;
            &&& a != 0
            &&& q >= 0 && q * q == b * b - 4 * a * c
            &&& -b - q == m * (2 * a) && -b + q == n * (2 * a)
        }),
    ensures
        (ox + m * dx) * (ox + m * dx) + (oy + m * dy) * (oy + m * dy) == r * r,
        (ox + n * dx) * (ox + n * dx) + (oy + n * dy) * (oy + n * dy) == r * r,
        m <= n,
        cylinder::cylinder_reach(f, s, ray) matches Some(t) ==> cylinder::on_cylinder(f, s, ray, t) && (
        rounding::is_step(t, m, 1074) || rounding::is_step(t, n, 1074)),
{
    let (o, d) = (ray.origin, ray.direction);
    whole_numbers();
    pairs_sum(f, d.x, dx, d.x, dx, d.y, dy, d.y, dy);
    pairs_sum(f, o.x, ox, d.x, dx, o.y, oy, d.y, dy);
    pairs_sum(f, o.x, ox, o.x, ox, o.y, oy, o.y, oy);
    pairs_sum(f, s.radius, r, s.radius, r, s.radius, r, s.radius, r);
    rounding::product_of_steps(f, s.radius, r, 1074, s.radius, r, 1074);
    let a = arith::sum(f, arith::product(f, d.x, d.x), arith::product(f, d.y, d.y));
    let h = arith::sum(f, arith::product(f, o.x, d.x), arith::product(f, o.y, d.y));
    rounding::product_of_steps(f, TWO, 2, 1074, h, ox * dx + oy * dy, 1074);
    let b = arith::product(f, TWO, h);
    let e = arith::sum(f, arith::product(f, o.x, o.x), arith::product(f, o.y, o.y));
    rounding::difference_of_steps(
        f,
        e,
        ox * ox + oy * oy,
        arith::product(f, s.radius, s.radius),
        r * r,
        1074,
    );
    let c = arith::difference(f, e, arith::product(f, s.radius, s.radius));
    let (i, j) = (dx * dx + dy * dy, 2 * (ox * dx + oy * dy));
    let k = ox * ox + oy * oy - r * r;
    roots_solve(f, a, b, c, i, j, k, q, m, n);
    on_the_wall(ox, oy, dx, dy, r, m);
    on_the_wall(ox, oy, dx, dy, r, n);
    assert(i > 0) by {
        assert(dx * dx >= 0 && dy * dy >= 0) by (nonlinear_arith);
    }
    assert(m <= n) by (nonlinear_arith)
        requires
            m * (2 * i) <= n * (2 * i),
            i > 0,
    ;
}

/// The point of a line at a root of the equation of a ball is on the ball.
proof fn on_the_ball(
    ox: int,
    oy: int,
    oz: int,
    dx: int,
    dy: int,
    dz: int,
    r: int,
    m: int,
)
    requires
        (dx * dx + dy * dy + dz * dz) * (m * m) + (2 * (ox * dx + oy * dy + oz * dz)) * m + (ox * ox + oy
            * oy + oz * oz - r * r) == 0,
    ensures
        (ox + m * dx) * (ox + m * dx) + (oy + m * dy) * (oy + m * dy) + (oz + m * dz) * (oz + m * dz) == r
            * r,
{
    assert((ox + m * dx) * (ox + m * dx) == ox * ox + 2 * (ox * dx) * m + (dx * dx) * (m * m))
        by (nonlinear_arith);
    assert((oy + m * dy) * (oy + m * dy) == oy * oy + 2 * (oy * dy) * m + (dy * dy) * (m * m))
        by (nonlinear_arith);
    assert((oz + m * dz) * (oz + m * dz) == oz * oz + 2 * (oz * dz) * m + (dz * dz) * (m * m))
        by (nonlinear_arith);
    let (x, y, z) = (dx * dx, dy * dy, dz * dz);
    let (a, b, c) = (ox * dx, oy * dy, oz * dz);
    assert((x + y + z) * (m * m) == x * (m * m) + y * (m * m) + z * (m * m)) by (nonlinear_arith);
    assert((2 * (a + b + c)) * m == 2 * a * m + 2 * b * m + 2 * c * m) by (nonlinear_arith);
}

/// A sum of three products of small whole numbers.
proof fn triples_sum<F: Fn(Op, u64, u64) -> u64>(f: F, v: Vec3, a: int, b: int, c: int, w: Vec3, d: int, e: int, g: int)
    requires
        rounding::is_rounding(f),
        rounding::is_step(v.x, a, 1074) && -100 <= a <= 100,
        rounding::is_step(v.y, b, 1074) && -100 <= b <= 100,
        rounding::is_step(v.z, c, 1074) && -100 <= c <= 100,
        rounding::is_step(w.x, d, 1074) && -100 <= d <= 100,
        rounding::is_step(w.y, e, 1074) && -100 <= e <= 100,
        rounding::is_step(w.z, g, 1074) && -100 <= g <= 100,
    ensures
        rounding::is_step(arith::dot_product(f, v, w), a * d + b * e + c * g, 1074),
        -30_000 <= a * d + b * e + c * g <= 30_000,
{
    pairs_sum(f, v.x, a, w.x, d, v.y, b, w.y, e);
    assert(-10_000 <= c * g <= 10_000) by (nonlinear_arith)
        requires
            -100 <= c <= 100,
            -100 <= g <= 100,
    ;
    rounding::product_of_steps(f, v.z, c, 1074, w.z, g, 1074);
    rounding::sum_of_steps(
        f,
        arith::sum(f, arith::product(f, v.x, w.x), arith::product(f, v.y, w.y)),
        a * d + b * e,
        arith::product(f, v.z, w.z),
        c * g,
        1074,
    );
}

/// Where a line with whole coordinates meets a sphere at whole distances, the point there is as
/// far from the centre as the radius.
pub proof fn spheres_are_met_where_they_are<F: Fn(Op, u64, u64) -> u64>(
    f: F,
    s: Sphere,
    ray: Ray,
    ox: int,
    oy: int,
    oz: int,
    dx: int,
    dy: int,
    dz: int,
    r: int,
    q: int,
    m: int,
    n: int,
)
    requires
        rounding::is_rounding(f),
        is_whole_ray(ray, ox, oy, oz, dx, dy, dz),
        rounding::is_step(s.radius, r, 1074) && 0 <= r <= 100,
        ({
            let (a, b) = (dx * dx + dy * dy + dz * dz, 2 * (ox * dx + oy * dy + oz * dz));
            let c = ox * ox + oy * oy + oz * oz - r * r;
            &&& a != 0
            &&& q >= 0 && q * q == b * b - 4 * a * c
            &&& -b - q == m * (2 * a) && -b + q == n * (2 * a)
        }),
    ensures
        (ox + m * dx) * (ox + m * dx) + (oy + m * dy) * (oy + m * dy) + (oz + m * dz) * (oz + m * dz) == r
            * r,
        (ox + n * dx) * (ox + n * dx) + (oy + n * dy) * (oy + n * dy) + (oz + n * dz) * (oz + n * dz) == r
            * r,
        m <= n,
        sphere::sphere_reach(f, s, ray) matches Some(t) ==> sphere::reaches(f, s, ray, t) && (
        rounding::is_step(t, m, 1074) || rounding::is_step(t, n, 1074)),
{
    let (o, d) = (ray.origin, ray.direction);
    whole_numbers();
    rounding::nought_and_one();
    let oc = point::between(f, o, Point3::of(ZERO, ZERO, ZERO));
    rounding::sum_with_nought(f, o.x, ZERO);
    rounding::sum_with_nought(f, o.y, ZERO);
    rounding::sum_with_nought(f, o.z, ZERO);
    triples_sum(f, d, dx, dy, dz, d, dx, dy, dz);
    triples_sum(f, oc, ox, oy, oz, d, dx, dy, dz);
    triples_sum(f, oc, ox, oy, oz, oc, ox, oy, oz);
    pairs_sum(f, s.radius, r, s.radius, r, s.radius, r, s.radius, r);
    rounding::product_of_steps(f, s.radius, r, 1074, s.radius, r, 1074);
    let a = arith::dot_product(f, d, d);
    let h = arith::dot_product(f, oc, d);
    rounding::product_of_steps(f, TWO, 2, 1074, h, ox * dx + oy * dy + oz * dz, 1074);
    let b = arith::product(f, TWO, h);
    let e = arith::dot_product(f, oc, oc);
    rounding::difference_of_steps(
        f,
        e,
        ox * ox + oy * oy + oz * oz,
        arith::product(f, s.radius, s.radius),
        r * r,
        1074,
    );
    let c = arith::difference(f, e, arith::product(f, s.radius, s.radius));
    let (i, j) = (dx * dx + dy * dy + dz * dz, 2 * (ox * dx + oy * dy + oz * dz));
    let k = ox * ox + oy * oy + oz * oz - r * r;
    roots_solve(f, a, b, c, i, j, k, q, m, n);
    on_the_ball(ox, oy, oz, dx, dy, dz, r, m);
    on_the_ball(ox, oy, oz, dx, dy, dz, r, n);
    assert(i > 0) by {
        assert(dx * dx >= 0 && dy * dy >= 0 && dz * dz >= 0) by (nonlinear_arith);
    }
    assert(m <= n) by (nonlinear_arith)
        requires
            m * (2 * i) <= n * (2 * i),
            i > 0,
    ;
}

// ---- triangles -------------------------------------------------------------

/// Whether a corner has whole coordinates, none above a hundred.
pub open spec fn is_whole_corner(v: Vec3, x: int, y: int, z: int) -> bool {
    &&& rounding::is_step(v.x, x, 1074) && rounding::is_step(v.y, y, 1074) && rounding::is_step(
        v.z,
        z,
        1074,
    )
    &&& -50 <= x <= 50 && -50 <= y <= 50 && -50 <= z <= 50
}

/// A difference of two products of small whole numbers.
proof fn pairs_differ<F: Fn(Op, u64, u64) -> u64>(
    f: F,
    a: u64,
    i: int,
    b: u64,
    j: int,
    c: u64,
    k: int,
    d: u64,
    l: int,
)
    requires
        rounding::is_rounding(f),
        rounding::is_step(a, i, 1074) && -100 <= i <= 100,
        rounding::is_step(b, j, 1074) && -100 <= j <= 100,
        rounding::is_step(c, k, 1074) && -100 <= k <= 100,
        rounding::is_step(d, l, 1074) && -100 <= l <= 100,
    ensures
        rounding::is_step(
            arith::difference(f, arith::product(f, a, b), arith::product(f, c, d)),
            i * j - k * l,
            1074,
        ),
{
    assert(-10_000 <= i * j <= 10_000) by (nonlinear_arith)
        requires
            -100 <= i <= 100,
            -100 <= j <= 100,
    ;
    assert(-10_000 <= k * l <= 10_000) by (nonlinear_arith)
        requires
            -100 <= k <= 100,
            -100 <= l <= 100,
    ;
    rounding::product_of_steps(f, a, i, 1074, b, j, 1074);
    rounding::product_of_steps(f, c, k, 1074, d, l, 1074);
    rounding::difference_of_steps(f, arith::product(f, a, b), i * j, arith::product(f, c, d), k * l, 1074);
}

/// Whether a hit is one of a triangle: the normal has the direction of `w` or the opposite one, a
/// vector that has whole coordinates.
pub open spec fn is_flat_hit<F: Fn(Op, u64, u64) -> u64>(
    f: F,
    s: extra::Triangle,
    r: Ray,
    h: Intersection,
    p: Point3,
    n: Vec3,
    w: Vec3,
    t: u64,
    x: int,
    y: int,
    z: int,
) -> bool {
    let (o, d) = traits::local_ray(f, s.place, r);
    &&& is_hit_at(f, s.place, r, h, p, if h.front_face {
        n
    } else {
        extra::opposite(n)
    })
    &&& is_along(n, w)
    &&& rounding::is_step(w.x, x, 1074) && rounding::is_step(w.y, y, 1074) && rounding::is_step(
        w.z,
        z,
        1074,
    )
    &&& is_on_line(f, o, d, p, t)
    &&& !double::at_most(t, EPSILON)
    &&& h.front_face == double::below(arith::dot_product(f, n, d), ZERO)
}

/// What a ray meets of a triangle is a point of the ray, with a normal at right angles to both of
/// its sides, turned towards where the ray comes from.
pub proof fn triangles_are_met_with_normals_across<F: Fn(Op, u64, u64) -> u64>(
    f: F,
    s: extra::Triangle,
    r: Ray,
    h: Intersection,
    a: (int, int, int),
    b: (int, int, int),
    c: (int, int, int),
)
    requires
        rounding::is_rounding(f),
        is_whole_corner(s.v0, a.0, a.1, a.2),
        is_whole_corner(s.v1, b.0, b.1, b.2),
        is_whole_corner(s.v2, c.0, c.1, c.2),
        extra::triangle_met(f, s, r) == Some(h),
    ensures
        exists|p: Point3, n: Vec3, w: Vec3, t: u64, x: int, y: int, z: int| #[trigger]
            is_flat_hit(f, s, r, h, p, n, w, t, x, y, z) && x * (b.0 - a.0) + y * (b.1 - a.1) + z * (b.2
                - a.2) == 0 && x * (c.0 - a.0) + y * (c.1 - a.1) + z * (c.2 - a.2) == 0,
{
    let (o, d) = traits::local_ray(f, s.place, r);
    let e1 = point::between(f, extra::corner(s.v1), extra::corner(s.v0));
    let e2 = point::between(f, extra::corner(s.v2), extra::corner(s.v0));
    rounding::difference_of_steps(f, s.v1.x, b.0, s.v0.x, a.0, 1074);
    rounding::difference_of_steps(f, s.v1.y, b.1, s.v0.y, a.1, 1074);
    rounding::difference_of_steps(f, s.v1.z, b.2, s.v0.z, a.2, 1074);
    rounding::difference_of_steps(f, s.v2.x, c.0, s.v0.x, a.0, 1074);
    rounding::difference_of_steps(f, s.v2.y, c.1, s.v0.y, a.1, 1074);
    rounding::difference_of_steps(f, s.v2.z, c.2, s.v0.z, a.2, 1074);
    let (i, j, k) = (b.0 - a.0, b.1 - a.1, b.2 - a.2);
    let (l, m, n) = (c.0 - a.0, c.1 - a.1, c.2 - a.2);
    pairs_differ(f, e1.y, j, e2.z, n, e1.z, k, e2.y, m);
    pairs_differ(f, e1.z, k, e2.x, l, e1.x, i, e2.z, n);
    pairs_differ(f, e1.x, i, e2.y, m, e1.y, j, e2.x, l);
    let w = arith::cross_product(f, e1, e2);
    let (x, y, z) = (j * n - k * m, k * l - i * n, i * m - j * l);
    assert(x * i + y * j + z * k == 0) by (nonlinear_arith)
        requires
            x == j * n - k * m,
            y == k * l - i * n,
            z == i * m - j * l,
    ;
    assert(x * l + y * m + z * n == 0) by (nonlinear_arith)
        requires
            x == j * n - k * m,
            y == k * l - i * n,
            z == i * m - j * l,
    ;
    units_point_along(f, w);
    let side = arith::cross_product(f, d, e2);
    let inverse = arith::quotient(f, ONE, arith::dot_product(f, e1, side));
    let from = point::between(f, o, extra::corner(s.v0));
    let q = arith::cross_product(f, from, e1);
    let t = arith::product(f, arith::dot_product(f, e2, q), inverse);
    let p = ray::along(f, o, d, t);
    assert(is_flat_hit(f, s, r, h, p, arith::unit(f, w), w, t, x, y, z));
}

} // verus!
