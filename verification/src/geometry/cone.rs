//! Cones.

use crate::arith;
use crate::arith::{
    compute, computes, minus, normalize_vector, over, plus, times, Op, TINY,
};
use crate::double;
use crate::geometry::sphere;
use crate::geometry::sphere::SLIGHT;
use crate::geometry::traits;
use crate::geometry::traits::{
    find_azimuth, find_roots, is_off_sweep, Placement, PrimitiveDesc,
};
use crate::math::matrix;
use crate::math::{Matrix4, Point3, Vec3, EPSILON, ONE, TWO, ZERO};
use crate::parser::scene::PrimitiveKind;
use crate::raytracer::intersection::Intersection;
use crate::raytracer::ray;
use crate::raytracer::ray::{go_along, Ray};
use vstd::prelude::*;

verus! {

/// A cone about the z axis from its base at the origin to its tip, swept about it.
#[derive(Clone, Copy, Debug, PartialEq, Eq, Structural)]
pub struct Cone {
    pub height: u64,
    pub radius: u64,
    pub thetamax: u64,
    pub place: Placement,
}

/// Whether a ray is ahead of where it starts, and between the ends of the cone.
pub open spec fn on_cone<F: Fn(Op, u64, u64) -> u64>(f: F, s: Cone, r: Ray, t: u64) -> bool {
    let p = ray::along(f, r.origin, r.direction, t);
    double::below(EPSILON, t) && double::at_most(ZERO, p.z) && double::at_most(p.z, s.height)
}

/// The same, and on the sweep.
pub open spec fn on_swept_cone<F: Fn(Op, u64, u64) -> u64>(f: F, s: Cone, r: Ray, t: u64) -> bool {
    on_cone(f, s, r, t) && !traits::off_sweep(
        f,
        ray::along(f, r.origin, r.direction, t),
        s.thetamax,
    )
}

/// How far along a ray the cone is: at the first root that is on it. A ray along its side
/// meets it once.
pub open spec fn cone_reach<F: Fn(Op, u64, u64) -> u64>(f: F, s: Cone, r: Ray) -> Option<u64> {
    let (o, d) = (r.origin, r.direction);
    let k = arith::product(
        f,
        arith::quotient(f, s.radius, s.height),
        arith::quotient(f, s.radius, s.height),
    );
    let a = arith::difference(
        f,
        arith::sum(f, arith::product(f, d.x, d.x), arith::product(f, d.y, d.y)),
        arith::product(f, arith::product(f, k, d.z), d.z),
    );
    let b = arith::product(
        f,
        TWO,
        arith::difference(
            f,
            arith::sum(f, arith::product(f, o.x, d.x), arith::product(f, o.y, d.y)),
            arith::product(f, arith::product(f, k, o.z), d.z),
        ),
    );
    let c = arith::difference(
        f,
        arith::sum(f, arith::product(f, o.x, o.x), arith::product(f, o.y, o.y)),
        arith::product(f, arith::product(f, k, o.z), o.z),
    );
    let t = arith::quotient(f, double::negated(c), b);
    if double::below(double::magnitude(a), EPSILON) {
        if !double::below(double::magnitude(b), EPSILON) && on_swept_cone(f, s, r, t) {
            Some(t)
        } else {
            None
        }
    } else {
        match traits::roots(f, a, b, c) {
            Some((t1, t2)) => if on_swept_cone(f, s, r, t1) {
                Some(t1)
            } else if on_swept_cone(f, s, r, t2) {
                Some(t2)
            } else {
                None
            },
            None => None,
        }
    }
}

/// A hit on the cone, with its parameters: along the sweep, and from the base to the tip.
pub open spec fn cone_hit<F: Fn(Op, u64, u64) -> u64>(f: F, s: Cone, r: Ray, p: Point3) -> Intersection {
    let ring = arith::value(
        f,
        Op::Root,
        arith::sum(f, arith::product(f, p.x, p.x), arith::product(f, p.y, p.y)),
        0,
    );
    let k = arith::quotient(f, s.radius, s.height);
    let n = arith::unit(f, Vec3::of(
        arith::quotient(f, p.x, ring),
        arith::quotient(f, p.y, ring),
        double::negated(k),
    ));
    let phi = traits::azimuth(f, p);
    let u = arith::product(
        f,
        double::greater(ring, arith::product(f, EPSILON, double::greater(s.radius, TINY))),
        arith::value(f, Op::Radians, s.thetamax, 0),
    );
    let slant = arith::value(
        f,
        Op::Root,
        arith::sum(f, arith::product(f, s.height, s.height), arith::product(f, s.radius, s.radius)),
        0,
    );
    let scale = matrix::scale_of(f, s.place.transform);
    Intersection {
        st: (double::clamped(
            arith::quotient(f, phi, s.thetamax),
            ZERO,
            ONE,
        ), double::clamped(
            arith::quotient(f, p.z, double::greater(s.height, TINY)),
            ZERO,
            ONE,
        )),
        st_density: arith::quotient(
            f,
            arith::quotient(
                f,
                ONE,
                arith::value(f, Op::Root, double::greater(arith::product(f, u, slant), SLIGHT), 0),
            ),
            scale,
        ),
        ..traits::world_hit(f, s.place, r, p, n)
    }
}

impl Cone {
    pub fn new<F: Fn(Op, u64, u64) -> u64>(
        height: u64,
        radius: u64,
        thetamax: u64,
        material_id: usize,
        transform: Matrix4,
        f: &F,
    ) -> (r: Cone)
        requires
            computes(*f),
        ensures
            r == (Cone { height, radius, thetamax, place: traits::placement(*f, material_id, transform) }),
    {
        Cone { height, radius, thetamax, place: Placement::new(material_id, transform, f) }
    }
}

impl Cone {
    fn is_on<F: Fn(Op, u64, u64) -> u64>(&self, r: &Ray, t: u64, f: &F) -> (b: bool)
        requires
            computes(*f),
        ensures
            b == on_cone(*f, *self, *r, t),
    {
        let p: Point3 = go_along(&r.origin, &r.direction, t, f);
        double::less(EPSILON, t) && double::less_or_equal(ZERO, p.z) && double::less_or_equal(
            p.z,
            self.height,
        )
    }

    fn is_on_swept<F: Fn(Op, u64, u64) -> u64>(&self, r: &Ray, t: u64, f: &F) -> (b: bool)
        requires
            computes(*f),
        ensures
            b == on_swept_cone(*f, *self, *r, t),
    {
        self.is_on(r, t, f) && !is_off_sweep(
            &go_along(&r.origin, &r.direction, t, f),
            self.thetamax,
            f,
        )
    }

    fn reach<F: Fn(Op, u64, u64) -> u64>(&self, r: &Ray, f: &F) -> (t: Option<u64>)
        requires
            computes(*f),
        ensures
            t == cone_reach(*f, *self, *r),
    {
        let (o, d): (Point3, Vec3) = (r.origin, r.direction);
        let k: u64 = times(f, over(f, self.radius, self.height), over(f, self.radius, self.height));
        let a: u64 = minus(
            f,
            plus(f, times(f, d.x, d.x), times(f, d.y, d.y)),
            times(f, times(f, k, d.z), d.z),
        );
        let b: u64 = times(
            f,
            TWO,
            minus(
                f,
                plus(f, times(f, o.x, d.x), times(f, o.y, d.y)),
                times(f, times(f, k, o.z), d.z),
            ),
        );
        let c: u64 = minus(
            f,
            plus(f, times(f, o.x, o.x), times(f, o.y, o.y)),
            times(f, times(f, k, o.z), o.z),
        );
        if double::less(double::absolute(a), EPSILON) {
            if double::less(double::absolute(b), EPSILON) {
                return None;
            }
            let t: u64 = over(f, double::negate(c), b);
            return if self.is_on_swept(r, t, f) {
                Some(t)
            } else {
                None
            };
        }
        match find_roots(a, b, c, f) {
            Some((t1, t2)) => if self.is_on_swept(r, t1, f) {
                Some(t1)
            } else if self.is_on_swept(r, t2, f) {
                Some(t2)
            } else {
                None
            },
            None => None,
        }
    }

    fn create_intersection<F: Fn(Op, u64, u64) -> u64>(&self, p: &Point3, ray: &Ray, f: &F) -> (r: Intersection)
        requires
            computes(*f),
        ensures
            r == cone_hit(*f, *self, *ray, *p),
    {
        let ring: u64 = compute(f, Op::Root, plus(f, times(f, p.x, p.x), times(f, p.y, p.y)), 0);
        let k: u64 = over(f, self.radius, self.height);
        let n: Vec3 = normalize_vector(f, Vec3::new(
            over(f, p.x, ring),
            over(f, p.y, ring),
            double::negate(k),
        ));
        let phi: u64 = find_azimuth(p, f);
        let across: u64 = double::clamp(over(f, phi, self.thetamax), ZERO, ONE);
        let up: u64 = double::clamp(over(f, p.z, double::larger_of(self.height, TINY)), ZERO, ONE);
        let u: u64 = times(
            f,
            double::larger_of(ring, times(f, EPSILON, double::larger_of(self.radius, TINY))),
            compute(f, Op::Radians, self.thetamax, 0),
        );
        let slant: u64 = compute(
            f,
            Op::Root,
            plus(f, times(f, self.height, self.height), times(f, self.radius, self.radius)),
            0,
        );
        let scale: u64 = self.place.transform.approx_scale(f);
        let density: u64 = over(
            f,
            over(f, ONE, compute(f, Op::Root, double::larger_of(times(f, u, slant), SLIGHT), 0)),
            scale,
        );
        self.place.globalize(ray, p, &n, f).with_st((across, up), density)
    }
}

/// Where a ray meets the primitive.
pub open spec fn cone_met<F: Fn(Op, u64, u64) -> u64>(f: F, s: Cone, ray: Ray) -> Option<Intersection> {
    let inner = sphere::inner_ray(f, s.place, ray);
    match cone_reach(f, s, inner) {
        Some(t) => Some(
            cone_hit(f, s, ray, ray::along(f, inner.origin, inner.direction, t)),
        ),
        None => None,
    }
}

/// What the primitive is.
pub open spec fn cone_desc(s: Cone) -> PrimitiveDesc {
    PrimitiveDesc {
        kind: PrimitiveKind::Cone {
            height: s.height,
            radius: s.radius,
            thetamax: s.thetamax,
        },
        place: s.place,
    }
}

impl Cone {
    /// Where a ray meets the primitive.
    pub fn intersect<F: Fn(Op, u64, u64) -> u64>(&self, ray: &Ray, f: &F) -> (r: Option<Intersection>)
        requires
            computes(*f),
        ensures
            r == cone_met(*f, *self, *ray),
    {
        let (o, d): (Point3, Vec3) = self.place.localize(ray, f);
        let inner: Ray = Ray::new(o, d, f);
        match self.reach(&inner, f) {
            Some(t) => {
                let p: Point3 = go_along(&inner.origin, &inner.direction, t, f);
                Some(self.create_intersection(&p, ray, f))
            },
            None => None,
        }
    }

    /// What the primitive is.
    pub fn describe(&self) -> (r: PrimitiveDesc)
        ensures
            r == cone_desc(*self),
    {
        PrimitiveDesc {
            kind: PrimitiveKind::Cone {
                height: self.height,
                radius: self.radius,
                thetamax: self.thetamax,
            },
            place: self.place,
        }
    }
}

} // verus!
