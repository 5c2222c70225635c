//! Spheres.

use crate::arith;
use crate::arith::{
    compute, computes, dot_vectors, minus, normalize_vector, over, plus, times, Op, TINY,
};
use crate::double;
use crate::geometry::traits;
use crate::geometry::traits::{
    find_azimuth, find_roots, is_off_sweep, Placement, PrimitiveDesc,
};
use crate::math::matrix;
use crate::math::point;
use crate::math::{Matrix4, Point3, Vec3, EPSILON, ONE, TWO, ZERO};
use crate::parser::scene::PrimitiveKind;
use crate::raytracer::intersection::Intersection;
use crate::raytracer::ray;
use crate::raytracer::ray::{go_along, Ray};
use vstd::prelude::*;

verus! {

/// 1e-24
pub const SLIGHT: u64 = 0x3af3_57c2_99a8_8ea7;

/// A sphere about the origin, cut off below and above and swept about the z axis.
#[derive(Clone, Copy, Debug, PartialEq, Eq, Structural)]
pub struct Sphere {
    pub radius: u64,
    pub zmin: u64,
    pub zmax: u64,
    pub thetamax: u64,
    pub place: Placement,
}

/// A ray in the space of a primitive, its direction made a unit once more.
pub open spec fn inner_ray<F: Fn(Op, u64, u64) -> u64>(f: F, place: Placement, r: Ray) -> Ray {
    let (origin, direction) = traits::local_ray(f, place, r);
    ray::ray_from(f, origin, direction)
}

/// The surface parameters at a point: along the sweep, and from the bottom to the top.
pub open spec fn sphere_st<F: Fn(Op, u64, u64) -> u64>(f: F, s: Sphere, p: Point3) -> (u64, u64) {
    let phi = traits::azimuth(f, p);
    let range = double::greater(arith::difference(f, s.zmax, s.zmin), TINY);
    (double::clamped(
        arith::quotient(f, phi, s.thetamax),
        ZERO,
        ONE,
    ), double::clamped(
        arith::quotient(f, arith::difference(f, p.z, s.zmin), range),
        ZERO,
        ONE,
    ))
}

/// How much the parameters change per unit of length.
pub open spec fn sphere_density<F: Fn(Op, u64, u64) -> u64>(f: F, s: Sphere, p: Point3) -> u64 {
    let range = double::greater(arith::difference(f, s.zmax, s.zmin), TINY);
    let ring = double::greater(
        arith::value(
            f,
            Op::Root,
            arith::sum(f, arith::product(f, p.x, p.x), arith::product(f, p.y, p.y)),
            0,
        ),
        arith::product(f, EPSILON, double::greater(s.radius, TINY)),
    );
    let u = arith::product(f, ring, arith::value(f, Op::Radians, s.thetamax, 0));
    let v = arith::quotient(f, arith::product(f, range, s.radius), ring);
    let scale = matrix::scale_of(f, s.place.transform);
    arith::quotient(
        f,
        arith::quotient(
            f,
            ONE,
            arith::value(f, Op::Root, double::greater(arith::product(f, u, v), SLIGHT), 0),
        ),
        scale,
    )
}

/// Whether a point is on the part of the sphere that is there.
pub open spec fn on_sphere<F: Fn(Op, u64, u64) -> u64>(f: F, s: Sphere, p: Point3) -> bool {
    !(double::below(p.z, s.zmin) || double::below(s.zmax, p.z)) && !traits::off_sweep(
        f,
        p,
        s.thetamax,
    )
}

/// Whether a ray at a distance is ahead of where it starts, and on the part of the sphere that
/// is there.
pub open spec fn reaches<F: Fn(Op, u64, u64) -> u64>(f: F, s: Sphere, r: Ray, t: u64) -> bool {
    double::below(EPSILON, t) && on_sphere(f, s, ray::along(f, r.origin, r.direction, t))
}

/// How far along a ray the sphere is: at the near root where that is ahead and there, else at
/// the far one where that is: from inside, or through an opening.
pub open spec fn sphere_reach<F: Fn(Op, u64, u64) -> u64>(f: F, s: Sphere, r: Ray) -> Option<u64> {
    let oc = point::between(f, r.origin, Point3::of(ZERO, ZERO, ZERO));
    let a = arith::dot_product(f, r.direction, r.direction);
    let b = arith::product(f, TWO, arith::dot_product(f, oc, r.direction));
    let c = arith::difference(
        f,
        arith::dot_product(f, oc, oc),
        arith::product(f, s.radius, s.radius),
    );
    match traits::roots(f, a, b, c) {
        Some((near, far)) => if reaches(f, s, r, near) {
            Some(near)
        } else if reaches(f, s, r, far) {
            Some(far)
        } else {
            None
        },
        None => None,
    }
}

impl Sphere {
    fn does_reach<F: Fn(Op, u64, u64) -> u64>(&self, r: &Ray, t: u64, f: &F) -> (b: bool)
        requires
            computes(*f),
        ensures
            b == reaches(*f, *self, *r, t),
    {
        let p: Point3 = go_along(&r.origin, &r.direction, t, f);
        double::less(EPSILON, t) && !(double::less(p.z, self.zmin) || double::less(self.zmax, p.z))
            && !is_off_sweep(&p, self.thetamax, f)
    }

    pub fn new<F: Fn(Op, u64, u64) -> u64>(
        radius: u64,
        zmin: u64,
        zmax: u64,
        thetamax: u64,
        material_id: usize,
        transform: Matrix4,
        f: &F,
    ) -> (r: Sphere)
        requires
            computes(*f),
        ensures
            r == (Sphere { radius, zmin, zmax, thetamax, place: traits::placement(*f, material_id, transform) }),
    {
        Sphere { radius, zmin, zmax, thetamax, place: Placement::new(material_id, transform, f) }
    }
}

/// Where a ray meets the primitive.
pub open spec fn sphere_met<F: Fn(Op, u64, u64) -> u64>(f: F, s: Sphere, ray: Ray) -> Option<Intersection> {
    let inner = inner_ray(f, s.place, ray);
    match sphere_reach(f, s, inner) {
        Some(t) => {
            let p = ray::along(f, inner.origin, inner.direction, t);
            let n = arith::unit(f, point::between(f, p, Point3::of(ZERO, ZERO, ZERO)));
            let at = traits::world_hit(f, s.place, ray, p, n);
            Some(
                Intersection {
                    front_face: double::below(
                        arith::dot_product(f, ray.direction, outward(f, s, n)),
                        ZERO,
                    ),
                    st: sphere_st(f, s, p),
                    st_density: sphere_density(f, s, p),
                    ..at
                },
            )
        },
        None => None,
    }
}

/// What the primitive is.
pub open spec fn sphere_desc(s: Sphere) -> PrimitiveDesc {
    PrimitiveDesc {
        kind: PrimitiveKind::Sphere {
            radius: s.radius,
            zmin: s.zmin,
            zmax: s.zmax,
            thetamax: s.thetamax,
        },
        place: s.place,
    }
}

impl Sphere {
    /// Where a ray meets the primitive.
    pub fn intersect<F: Fn(Op, u64, u64) -> u64>(&self, ray: &Ray, f: &F) -> (r: Option<Intersection>)
        requires
            computes(*f),
        ensures
            r == sphere_met(*f, *self, *ray),
    {
        let (o, d): (Point3, Vec3) = self.place.localize(ray, f);
        let inner: Ray = Ray::new(o, d, f);
        let center: Point3 = Point3::origin();
        let oc: Vec3 = inner.origin.from_point(&center, f);
        let a: u64 = dot_vectors(f, inner.direction, inner.direction);
        let b: u64 = times(f, TWO, dot_vectors(f, oc, inner.direction));
        let c: u64 = minus(f, dot_vectors(f, oc, oc), times(f, self.radius, self.radius));
        let t: u64 = match find_roots(a, b, c, f) {
            Some((near, far)) => if self.does_reach(&inner, near, f) {
                near
            } else if self.does_reach(&inner, far, f) {
                far
            } else {
                return None;
            },
            None => {
                return None;
            },
        };
        let p: Point3 = go_along(&inner.origin, &inner.direction, t, f);
        let n: Vec3 = normalize_vector(f, p.from_point(&center, f));
        let phi: u64 = find_azimuth(&p, f);
        let range: u64 = double::larger_of(minus(f, self.zmax, self.zmin), TINY);
        let across: u64 = double::clamp(over(f, phi, self.thetamax), ZERO, ONE);
        let up: u64 = double::clamp(over(f, minus(f, p.z, self.zmin), range), ZERO, ONE);
        let ring: u64 = double::larger_of(
            compute(f, Op::Root, plus(f, times(f, p.x, p.x), times(f, p.y, p.y)), 0),
            times(f, EPSILON, double::larger_of(self.radius, TINY)),
        );
        let u: u64 = times(f, ring, compute(f, Op::Radians, self.thetamax, 0));
        let v: u64 = over(f, times(f, range, self.radius), ring);
        let scale: u64 = self.place.transform.approx_scale(f);
        let density: u64 = over(
            f,
            over(f, ONE, compute(f, Op::Root, double::larger_of(times(f, u, v), SLIGHT), 0)),
            scale,
        );
        let normal: Vec3 = normalize_vector(
            f,
            self.place.inverse_transform.transform_normal(&n, f),
        );
        let front: bool = double::less(dot_vectors(f, ray.direction, normal), ZERO);
        let hit: Intersection = self.place.globalize(ray, &p, &n, f);
        Some(hit.with_front_face(front).with_st((across, up), density))
    }

    /// What the primitive is.
    pub fn describe(&self) -> (r: PrimitiveDesc)
        ensures
            r == sphere_desc(*self),
    {
        PrimitiveDesc {
            kind: PrimitiveKind::Sphere {
                radius: self.radius,
                zmin: self.zmin,
                zmax: self.zmax,
                thetamax: self.thetamax,
            },
            place: self.place,
        }
    }
}

/// A normal of the sphere in the world.
pub open spec fn outward<F: Fn(Op, u64, u64) -> u64>(f: F, s: Sphere, n: Vec3) -> Vec3 {
    arith::unit(f, matrix::normal_of(f, s.place.inverse_transform, n))
}

} // verus!
