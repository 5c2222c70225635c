//! Placed primitives, and what rays do with all of them.

use crate::arith;
use crate::arith::{compute, computes, minus, normalize_vector, over, plus, times, Op};
use crate::double;
use crate::math::matrix;
use crate::math::point;
use crate::math::{Matrix4, Point3, Vec3, FOUR, FULL_CIRCLE, TWO, ZERO};
use crate::parser::scene::PrimitiveKind;
use crate::raytracer::intersection;
use crate::raytracer::intersection::Intersection;
use crate::raytracer::ray::Ray;
use vstd::prelude::*;

verus! {

/// Where a primitive stands, and what it is made of.
#[derive(Clone, Copy, Debug, PartialEq, Eq, Structural)]
pub struct Placement {
    pub material_id: usize,
    pub transform: Matrix4,
    pub inverse_transform: Matrix4,
}

/// What a primitive is and where it stands.
#[derive(Clone, Copy, Debug)]
pub struct PrimitiveDesc {
    pub kind: PrimitiveKind,
    pub place: Placement,
}

/// A placement: the inverse of a transform that has none is the identity.
pub open spec fn placement<F: Fn(Op, u64, u64) -> u64>(f: F, material_id: usize, transform: Matrix4) -> Placement {
    Placement {
        material_id,
        transform,
        inverse_transform: match matrix::inverse_of(f, transform) {
            Some(m) => m,
            None => Matrix4::identity_of(),
        },
    }
}

/// A ray as a primitive sees it, its direction a unit.
pub open spec fn local_ray<F: Fn(Op, u64, u64) -> u64>(f: F, place: Placement, ray: Ray) -> (Point3, Vec3) {
    (
        matrix::point_of(f, place.inverse_transform, ray.origin),
        arith::unit(f, matrix::vector_of(f, place.inverse_transform, ray.direction)),
    )
}

/// A hit in the space of a primitive, in the world.
pub open spec fn world_hit<F: Fn(Op, u64, u64) -> u64>(f: F, place: Placement, ray: Ray, p: Point3, n: Vec3) -> Intersection {
    let at = matrix::point_of(f, place.transform, p);
    intersection::hit_at(
        f,
        point::distance(f, at, ray.origin),
        at,
        arith::unit(f, matrix::normal_of(f, place.inverse_transform, n)),
        place.material_id,
    )
}

impl Placement {
    pub fn new<F: Fn(Op, u64, u64) -> u64>(material_id: usize, transform: Matrix4, f: &F) -> (r: Placement)
        requires
            computes(*f),
        ensures
            r == placement(*f, material_id, transform),
    {
        let inverse_transform: Matrix4 = match transform.inverse(f) {
            Some(m) => m,
            None => Matrix4::identity(),
        };
        Placement { material_id, transform, inverse_transform }
    }

    /// A ray as the primitive sees it.
    pub fn localize<F: Fn(Op, u64, u64) -> u64>(&self, ray: &Ray, f: &F) -> (r: (Point3, Vec3))
        requires
            computes(*f),
        ensures
            r == local_ray(*f, *self, *ray),
    {
        let origin: Point3 = self.inverse_transform.transform_point(&ray.origin, f);
        let direction: Vec3 = self.inverse_transform.transform_vec(&ray.direction, f);
        (origin, normalize_vector(f, direction))
    }

    /// A hit in the space of the primitive, in the world.
    pub fn globalize<F: Fn(Op, u64, u64) -> u64>(&self, ray: &Ray, p: &Point3, n: &Vec3, f: &F) -> (r: Intersection)
        requires
            computes(*f),
        ensures
            r == world_hit(*f, *self, *ray, *p, *n),
    {
        let at: Point3 = self.transform.transform_point(p, f);
        let t: u64 = at.distance(&ray.origin, f);
        let normal: Vec3 = normalize_vector(f, self.inverse_transform.transform_normal(n, f));
        Intersection::new(t, at, normal, self.material_id, f)
    }
}

/// The degrees, from 0 on, of a point around the z axis.
pub open spec fn azimuth<F: Fn(Op, u64, u64) -> u64>(f: F, p: Point3) -> u64 {
    let phi = arith::value(f, Op::Degrees, p.y, p.x);
    if double::below(phi, ZERO) {
        arith::sum(f, phi, FULL_CIRCLE)
    } else {
        phi
    }
}

/// The degrees, from 0 on, of a point around the z axis.
pub fn find_azimuth<F: Fn(Op, u64, u64) -> u64>(p: &Point3, f: &F) -> (r: u64)
    requires
        computes(*f),
    ensures
        r == azimuth(*f, *p),
{
    let phi: u64 = compute(f, Op::Degrees, p.y, p.x);
    if double::less(phi, ZERO) {
        plus(f, phi, FULL_CIRCLE)
    } else {
        phi
    }
}

/// Whether a point is outside a sweep of some degrees about the z axis.
pub open spec fn off_sweep<F: Fn(Op, u64, u64) -> u64>(f: F, p: Point3, thetamax: u64) -> bool {
    double::below(thetamax, FULL_CIRCLE) && double::below(thetamax, azimuth(f, p))
}

/// Whether a point is outside a sweep of some degrees about the z axis.
pub fn is_off_sweep<F: Fn(Op, u64, u64) -> u64>(p: &Point3, thetamax: u64, f: &F) -> (r: bool)
    requires
        computes(*f),
    ensures
        r == off_sweep(*f, *p, thetamax),
{
    double::less(thetamax, FULL_CIRCLE) && double::less(thetamax, find_azimuth(p, f))
}

/// Whether a point is inside a sweep of some degrees about the z axis.
pub open spec fn on_sweep<F: Fn(Op, u64, u64) -> u64>(f: F, p: Point3, thetamax: u64) -> bool {
    double::at_most(FULL_CIRCLE, thetamax) || double::at_most(azimuth(f, p), thetamax)
}

/// Whether a point is inside a sweep of some degrees about the z axis.
pub fn is_on_sweep<F: Fn(Op, u64, u64) -> u64>(p: &Point3, thetamax: u64, f: &F) -> (r: bool)
    requires
        computes(*f),
    ensures
        r == on_sweep(*f, *p, thetamax),
{
    double::less_or_equal(FULL_CIRCLE, thetamax) || double::less_or_equal(
        find_azimuth(p, f),
        thetamax,
    )
}

/// The roots of a quadratic equation, where it has any: with the root of the discriminant
/// taken away, and added.
pub open spec fn roots<F: Fn(Op, u64, u64) -> u64>(f: F, a: u64, b: u64, c: u64) -> Option<(u64, u64)> {
    let d = arith::difference(
        f,
        arith::product(f, b, b),
        arith::product(f, arith::product(f, FOUR, a), c),
    );
    let s = arith::value(f, Op::Root, d, 0);
    if double::below(d, ZERO) {
        None
    } else {
        Some((arith::quotient(
            f,
            arith::difference(f, double::negated(b), s),
            arith::product(f, TWO, a),
        ), arith::quotient(
            f,
            arith::sum(f, double::negated(b), s),
            arith::product(f, TWO, a),
        )))
    }
}

/// The roots of a quadratic equation, where it has any.
pub fn find_roots<F: Fn(Op, u64, u64) -> u64>(a: u64, b: u64, c: u64, f: &F) -> (r: Option<(u64, u64)>)
    requires
        computes(*f),
    ensures
        r == roots(*f, a, b, c),
{
    let d: u64 = minus(f, times(f, b, b), times(f, times(f, FOUR, a), c));
    if double::less(d, ZERO) {
        return None;
    }
    let s: u64 = compute(f, Op::Root, d, 0);
    Some((over(f, minus(f, double::negate(b), s), times(f, TWO, a)), over(f, plus(f, double::negate(b), s), times(f, TWO, a))))
}

} // verus!
