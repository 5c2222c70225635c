//! Cylinders.

use crate::arith;
use crate::arith::{computes, minus, normalize_vector, plus, times, Op};
use crate::double;
use crate::geometry::sphere;
use crate::geometry::traits;
use crate::geometry::traits::{find_roots, is_off_sweep, Placement, PrimitiveDesc};
use crate::math::{Matrix4, Point3, Vec3, EPSILON, TWO, ZERO};
use crate::parser::scene::PrimitiveKind;
use crate::raytracer::intersection::Intersection;
use crate::raytracer::ray;
use crate::raytracer::ray::{go_along, Ray};
use vstd::prelude::*;

verus! {

/// A cylinder about the z axis, swept about it.
#[derive(Clone, Copy, Debug, PartialEq, Eq, Structural)]
pub struct Cylinder {
    pub radius: u64,
    pub zmin: u64,
    pub zmax: u64,
    pub thetamax: u64,
    pub place: Placement,
}

/// Whether a ray at a distance is ahead of where it starts, and on the part of the cylinder
/// that is there.
pub open spec fn on_cylinder<F: Fn(Op, u64, u64) -> u64>(f: F, s: Cylinder, r: Ray, t: u64) -> bool {
    let p = ray::along(f, r.origin, r.direction, t);
    &&& double::below(EPSILON, t)
    &&& !(double::below(p.z, s.zmin) || double::below(s.zmax, p.z))
    &&& !traits::off_sweep(f, p, s.thetamax)
}

/// How far along a ray the cylinder is: at the first root that is on it.
pub open spec fn cylinder_reach<F: Fn(Op, u64, u64) -> u64>(f: F, s: Cylinder, r: Ray) -> Option<u64> {
    let (o, d) = (r.origin, r.direction);
    let a = arith::sum(f, arith::product(f, d.x, d.x), arith::product(f, d.y, d.y));
    let b = arith::product(
        f,
        TWO,
        arith::sum(f, arith::product(f, o.x, d.x), arith::product(f, o.y, d.y)),
    );
    let c = arith::difference(
        f,
        arith::sum(f, arith::product(f, o.x, o.x), arith::product(f, o.y, o.y)),
        arith::product(f, s.radius, s.radius),
    );
    if double::below(double::magnitude(a), EPSILON) {
        None
    } else {
        match traits::roots(f, a, b, c) {
            Some((near, far)) => if on_cylinder(f, s, r, near) {
                Some(near)
            } else if on_cylinder(f, s, r, far) {
                Some(far)
            } else {
                None
            },
            None => None,
        }
    }
}

impl Cylinder {
    pub fn new<F: Fn(Op, u64, u64) -> u64>(
        radius: u64,
        zmin: u64,
        zmax: u64,
        thetamax: u64,
        material_id: usize,
        transform: Matrix4,
        f: &F,
    ) -> (r: Cylinder)
        requires
            computes(*f),
        ensures
            r == (Cylinder { radius, zmin, zmax, thetamax, place: traits::placement(*f, material_id, transform) }),
    {
        Cylinder { radius, zmin, zmax, thetamax, place: Placement::new(material_id, transform, f) }
    }
}

impl Cylinder {
    fn reach<F: Fn(Op, u64, u64) -> u64>(&self, r: &Ray, f: &F) -> (t: Option<u64>)
        requires
            computes(*f),
        ensures
            t == cylinder_reach(*f, *self, *r),
    {
        let (o, d): (Point3, Vec3) = (r.origin, r.direction);
        let a: u64 = plus(f, times(f, d.x, d.x), times(f, d.y, d.y));
        let b: u64 = times(f, TWO, plus(f, times(f, o.x, d.x), times(f, o.y, d.y)));
        let c: u64 = minus(
            f,
            plus(f, times(f, o.x, o.x), times(f, o.y, o.y)),
            times(f, self.radius, self.radius),
        );
        if double::less(double::absolute(a), EPSILON) {
            return None;
        }
        match find_roots(a, b, c, f) {
            Some((near, far)) => if self.is_on(r, near, f) {
                Some(near)
            } else if self.is_on(r, far, f) {
                Some(far)
            } else {
                None
            },
            None => None,
        }
    }

    fn is_on<F: Fn(Op, u64, u64) -> u64>(&self, r: &Ray, t: u64, f: &F) -> (b: bool)
        requires
            computes(*f),
        ensures
            b == on_cylinder(*f, *self, *r, t),
    {
        let p: Point3 = go_along(&r.origin, &r.direction, t, f);
        double::less(EPSILON, t) && !(double::less(p.z, self.zmin) || double::less(self.zmax, p.z))
            && !is_off_sweep(&p, self.thetamax, f)
    }
}

/// Where a ray meets the primitive.
pub open spec fn cylinder_met<F: Fn(Op, u64, u64) -> u64>(f: F, s: Cylinder, ray: Ray) -> Option<Intersection> {
    let inner = sphere::inner_ray(f, s.place, ray);
    match cylinder_reach(f, s, inner) {
        Some(t) => {
            let p = ray::along(f, inner.origin, inner.direction, t);
            let n = arith::unit(f, Vec3::of(p.x, p.y, ZERO));
            Some(traits::world_hit(f, s.place, ray, p, n))
        },
        None => None,
    }
}

/// What the primitive is.
pub open spec fn cylinder_desc(s: Cylinder) -> PrimitiveDesc {
    PrimitiveDesc {
        kind: PrimitiveKind::Cylinder {
            radius: s.radius,
            zmin: s.zmin,
            zmax: s.zmax,
            thetamax: s.thetamax,
        },
        place: s.place,
    }
}

impl Cylinder {
    /// Where a ray meets the primitive.
    pub fn intersect<F: Fn(Op, u64, u64) -> u64>(&self, ray: &Ray, f: &F) -> (r: Option<Intersection>)
        requires
            computes(*f),
        ensures
            r == cylinder_met(*f, *self, *ray),
    {
        let (o, d): (Point3, Vec3) = self.place.localize(ray, f);
        let inner: Ray = Ray::new(o, d, f);
        match self.reach(&inner, f) {
            Some(t) => {
                let p: Point3 = go_along(&inner.origin, &inner.direction, t, f);
                let n: Vec3 = normalize_vector(f, Vec3::new(p.x, p.y, ZERO));
                Some(self.place.globalize(ray, &p, &n, f))
            },
            None => None,
        }
    }

    /// What the primitive is.
    pub fn describe(&self) -> (r: PrimitiveDesc)
        ensures
            r == cylinder_desc(*self),
    {
        PrimitiveDesc {
            kind: PrimitiveKind::Cylinder {
                radius: self.radius,
                zmin: self.zmin,
                zmax: self.zmax,
                thetamax: self.thetamax,
            },
            place: self.place,
        }
    }
}

} // verus!
