//! Disks, paraboloids, hyperboloids and triangles. Rays are brought into the space of the
//! primitive, with a direction that is a unit there; hits go back to the world, where the
//! distance is measured and normals pass through the transpose of the inverse.

use crate::arith;
use crate::arith::{
    computes, cross_vectors, dot_vectors, minus, normalize_vector, over, plus, times, Op, TINY,
};
use crate::double;
use crate::geometry::traits;
use crate::geometry::traits::{find_roots, is_on_sweep, Placement, PrimitiveDesc};
use crate::math::point;
use crate::math::{Matrix4, Point3, Vec3, EPSILON, ONE, TWO, ZERO};
use crate::parser::scene::PrimitiveKind;
use crate::raytracer::intersection::Intersection;
use crate::raytracer::ray;
use crate::raytracer::ray::{go_along, Ray};
use vstd::prelude::*;

verus! {

/// How far along a line it meets a height: not where it runs level, nor behind it.
pub open spec fn level_reach<F: Fn(Op, u64, u64) -> u64>(f: F, o: Point3, d: Vec3, height: u64) -> Option<u64> {
    let t = arith::quotient(f, arith::difference(f, height, o.z), d.z);
    if double::below(double::magnitude(d.z), EPSILON) || double::at_most(t, EPSILON) {
        None
    } else {
        Some(t)
    }
}

fn find_level<F: Fn(Op, u64, u64) -> u64>(o: &Point3, d: &Vec3, height: u64, f: &F) -> (r: Option<u64>)
    requires
        computes(*f),
    ensures
        r == level_reach(*f, *o, *d, height),
{
    if double::less(double::absolute(d.z), EPSILON) {
        return None;
    }
    let t: u64 = over(f, minus(f, height, o.z), d.z);
    if double::less_or_equal(t, EPSILON) {
        None
    } else {
        Some(t)
    }
}

/// The places where a quadric may be met: one where the equation is no quadratic.
pub open spec fn candidates<F: Fn(Op, u64, u64) -> u64>(f: F, a: u64, b: u64, c: u64) -> Seq<u64> {
    if double::below(double::magnitude(a), EPSILON) {
        if double::below(double::magnitude(b), EPSILON) {
            seq![]
        } else {
            seq![arith::quotient(f, double::negated(c), b)]
        }
    } else {
        match traits::roots(f, a, b, c) {
            Some((t1, t2)) => seq![t1, t2],
            None => seq![],
        }
    }
}

/// The places where a quadric may be met.
fn find_candidates<F: Fn(Op, u64, u64) -> u64>(a: u64, b: u64, c: u64, f: &F) -> (r: Vec<u64>)
    requires
        computes(*f),
    ensures
        r@ == candidates(*f, a, b, c),
{
    let mut out: Vec<u64> = Vec::new();
    if double::less(double::absolute(a), EPSILON) {
        if !double::less(double::absolute(b), EPSILON) {
            out.push(over(f, double::negate(c), b));
        }
    } else if let Some((t1, t2)) = find_roots(a, b, c, f) {
        out.push(t1);
        out.push(t2);
    }
    assert(out@ =~= candidates(*f, a, b, c));
    out
}

/// Whether a line at a distance is ahead, between two heights and on a sweep.
pub open spec fn on_band<F: Fn(Op, u64, u64) -> u64>(
    f: F,
    o: Point3,
    d: Vec3,
    low: u64,
    high: u64,
    thetamax: u64,
    t: u64,
) -> bool {
    let p = ray::along(f, o, d, t);
    &&& !double::at_most(t, EPSILON)
    &&& !(double::below(p.z, low) || double::below(high, p.z))
    &&& traits::on_sweep(f, p, thetamax)
}

/// The first of some distances at which a line is on a band.
pub open spec fn first_on_band<F: Fn(Op, u64, u64) -> u64>(
    f: F,
    o: Point3,
    d: Vec3,
    low: u64,
    high: u64,
    thetamax: u64,
    ts: Seq<u64>,
) -> Option<u64>
    decreases ts.len(),
{
    if ts.len() == 0 {
        None
    } else if on_band(f, o, d, low, high, thetamax, ts[0]) {
        Some(ts[0])
    } else {
        first_on_band(f, o, d, low, high, thetamax, ts.skip(1))
    }
}

fn find_on_band<F: Fn(Op, u64, u64) -> u64>(
    o: &Point3,
    d: &Vec3,
    low: u64,
    high: u64,
    thetamax: u64,
    ts: &Vec<u64>,
    f: &F,
) -> (r: Option<u64>)
    requires
        computes(*f),
    ensures
        r == first_on_band(*f, *o, *d, low, high, thetamax, ts@),
{
    let n: usize = ts.len();
    let mut i: usize = 0;
    assert(ts@.skip(0) =~= ts@);
    while i < n
        invariant
            i <= n == ts@.len(),
            computes(*f),
            first_on_band(*f, *o, *d, low, high, thetamax, ts@) == first_on_band(
                *f,
                *o,
                *d,
                low,
                high,
                thetamax,
                ts@.skip(i as int),
            ),
        decreases n - i,
    {
        let t: u64 = ts[i];
        let p: Point3 = go_along(o, d, t, f);
        assert(ts@.skip(i as int)[0] == t);
        assert(ts@.skip(i as int).skip(1) =~= ts@.skip(i + 1));
        if !double::less_or_equal(t, EPSILON) && !(double::less(p.z, low) || double::less(
            high,
            p.z,
        )) && is_on_sweep(&p, thetamax, f) {
            return Some(t);
        }
        i += 1;
    }
    None
}

// ---- disks -----------------------------------------------------------------

/// A disk about the z axis at a height, swept about it.
#[derive(Clone, Copy, Debug, PartialEq, Eq, Structural)]
pub struct Disk {
    pub height: u64,
    pub radius: u64,
    pub thetamax: u64,
    pub place: Placement,
}

impl Disk {
    pub fn new<F: Fn(Op, u64, u64) -> u64>(
        height: u64,
        radius: u64,
        thetamax: u64,
        material_id: usize,
        transform: Matrix4,
        f: &F,
    ) -> (r: Disk)
        requires
            computes(*f),
        ensures
            r == (Disk { height, radius, thetamax, place: traits::placement(*f, material_id, transform) }),
    {
        Disk { height, radius, thetamax, place: Placement::new(material_id, transform, f) }
    }
}

/// Where a ray meets the primitive.
pub open spec fn disk_met<F: Fn(Op, u64, u64) -> u64>(f: F, s: Disk, ray: Ray) -> Option<Intersection> {
    let (o, d) = traits::local_ray(f, s.place, ray);
    match level_reach(f, o, d, s.height) {
        Some(t) => {
            let p = ray::along(f, o, d, t);
            let wide = double::below(
                arith::product(f, s.radius, s.radius),
                arith::sum(f, arith::product(f, p.x, p.x), arith::product(f, p.y, p.y)),
            );
            if wide || !traits::on_sweep(f, p, s.thetamax) {
                None
            } else {
                Some(traits::world_hit(f, s.place, ray, p, Vec3::of(ZERO, ZERO, ONE)))
            }
        },
        None => None,
    }
}

/// What the primitive is.
pub open spec fn disk_desc(s: Disk) -> PrimitiveDesc {
    PrimitiveDesc {
        kind: PrimitiveKind::Disk {
            height: s.height,
            radius: s.radius,
            thetamax: s.thetamax,
        },
        place: s.place,
    }
}

impl Disk {
    /// Where a ray meets the primitive.
    pub fn intersect<F: Fn(Op, u64, u64) -> u64>(&self, ray: &Ray, f: &F) -> (r: Option<Intersection>)
        requires
            computes(*f),
        ensures
            r == disk_met(*f, *self, *ray),
    {
        let (o, d): (Point3, Vec3) = self.place.localize(ray, f);
        match find_level(&o, &d, self.height, f) {
            Some(t) => {
                let p: Point3 = go_along(&o, &d, t, f);
                let wide: bool = double::less(
                    times(f, self.radius, self.radius),
                    plus(f, times(f, p.x, p.x), times(f, p.y, p.y)),
                );
                if wide || !is_on_sweep(&p, self.thetamax, f) {
                    None
                } else {
                    Some(self.place.globalize(ray, &p, &Vec3::new(ZERO, ZERO, ONE), f))
                }
            },
            None => None,
        }
    }

    /// What the primitive is.
    pub fn describe(&self) -> (r: PrimitiveDesc)
        ensures
            r == disk_desc(*self),
    {
        PrimitiveDesc {
            kind: PrimitiveKind::Disk {
                height: self.height,
                radius: self.radius,
                thetamax: self.thetamax,
            },
            place: self.place,
        }
    }
}

// ---- paraboloids -----------------------------------------------------------

/// A paraboloid about the z axis, `rmax` wide at `zmax` and cut off below and above.
#[derive(Clone, Copy, Debug, PartialEq, Eq, Structural)]
pub struct Paraboloid {
    pub rmax: u64,
    pub zmin: u64,
    pub zmax: u64,
    pub thetamax: u64,
    pub place: Placement,
}

impl Paraboloid {
    pub fn new<F: Fn(Op, u64, u64) -> u64>(
        rmax: u64,
        zmin: u64,
        zmax: u64,
        thetamax: u64,
        material_id: usize,
        transform: Matrix4,
        f: &F,
    ) -> (r: Paraboloid)
        requires
            computes(*f),
        ensures
            r == (Paraboloid { rmax, zmin, zmax, thetamax, place: traits::placement(*f, material_id, transform) }),
    {
        Paraboloid { rmax, zmin, zmax, thetamax, place: Placement::new(material_id, transform, f) }
    }
}

/// Where a ray meets the primitive.
pub open spec fn paraboloid_met<F: Fn(Op, u64, u64) -> u64>(f: F, s: Paraboloid, ray: Ray) -> Option<Intersection> {
    let (o, d) = traits::local_ray(f, s.place, ray);
    let k = arith::quotient(f, arith::product(f, s.rmax, s.rmax), s.zmax);
    let a = arith::sum(f, arith::product(f, d.x, d.x), arith::product(f, d.y, d.y));
    let b = arith::difference(
        f,
        arith::product(
            f,
            TWO,
            arith::sum(f, arith::product(f, o.x, d.x), arith::product(f, o.y, d.y)),
        ),
        arith::product(f, k, d.z),
    );
    let c = arith::difference(
        f,
        arith::sum(f, arith::product(f, o.x, o.x), arith::product(f, o.y, o.y)),
        arith::product(f, k, o.z),
    );
    let ts = candidates(f, a, b, c);
    if double::below(double::magnitude(s.zmax), EPSILON) {
        None
    } else {
        match first_on_band(f, o, d, s.zmin, s.zmax, s.thetamax, ts) {
            Some(t) => {
                let p = ray::along(f, o, d, t);
                let n = arith::unit(f, Vec3::of(
                    arith::product(f, TWO, p.x),
                    arith::product(f, TWO, p.y),
                    double::negated(k),
                ));
                Some(traits::world_hit(f, s.place, ray, p, n))
            },
            None => None,
        }
    }
}

/// What the primitive is.
pub open spec fn paraboloid_desc(s: Paraboloid) -> PrimitiveDesc {
    PrimitiveDesc {
        kind: PrimitiveKind::Paraboloid {
            rmax: s.rmax,
            zmin: s.zmin,
            zmax: s.zmax,
            thetamax: s.thetamax,
        },
        place: s.place,
    }
}

impl Paraboloid {
    /// Where a ray meets the primitive.
    pub fn intersect<F: Fn(Op, u64, u64) -> u64>(&self, ray: &Ray, f: &F) -> (r: Option<Intersection>)
        requires
            computes(*f),
        ensures
            r == paraboloid_met(*f, *self, *ray),
    {
        if double::less(double::absolute(self.zmax), EPSILON) {
            return None;
        }
        let (o, d): (Point3, Vec3) = self.place.localize(ray, f);
        let k: u64 = over(f, times(f, self.rmax, self.rmax), self.zmax);
        let a: u64 = plus(f, times(f, d.x, d.x), times(f, d.y, d.y));
        let b: u64 = minus(
            f,
            times(f, TWO, plus(f, times(f, o.x, d.x), times(f, o.y, d.y))),
            times(f, k, d.z),
        );
        let c: u64 = minus(f, plus(f, times(f, o.x, o.x), times(f, o.y, o.y)), times(f, k, o.z));
        let ts: Vec<u64> = find_candidates(a, b, c, f);
        match find_on_band(&o, &d, self.zmin, self.zmax, self.thetamax, &ts, f) {
            Some(t) => {
                let p: Point3 = go_along(&o, &d, t, f);
                let n: Vec3 = normalize_vector(f, Vec3::new(
                    times(f, TWO, p.x),
                    times(f, TWO, p.y),
                    double::negate(k),
                ));
                Some(self.place.globalize(ray, &p, &n, f))
            },
            None => None,
        }
    }

    /// What the primitive is.
    pub fn describe(&self) -> (r: PrimitiveDesc)
        ensures
            r == paraboloid_desc(*self),
    {
        PrimitiveDesc {
            kind: PrimitiveKind::Paraboloid {
                rmax: self.rmax,
                zmin: self.zmin,
                zmax: self.zmax,
                thetamax: self.thetamax,
            },
            place: self.place,
        }
    }
}

// ---- hyperboloids ----------------------------------------------------------

/// What the line from one point to another sweeps out about the z axis.
#[derive(Clone, Copy, Debug, PartialEq, Eq, Structural)]
pub struct Hyperboloid {
    pub p1: Vec3,
    pub p2: Vec3,
    pub thetamax: u64,
    pub place: Placement,
}

/// The square of the radius by the height: the factors of its square, of itself and of one.
pub open spec fn profile<F: Fn(Op, u64, u64) -> u64>(f: F, s: Hyperboloid) -> (u64, u64, u64) {
    let u = arith::quotient(f, ONE, arith::difference(f, s.p2.z, s.p1.z));
    let sx = arith::product(f, arith::difference(f, s.p2.x, s.p1.x), u);
    let sy = arith::product(f, arith::difference(f, s.p2.y, s.p1.y), u);
    let cx = arith::difference(f, s.p1.x, arith::product(f, s.p1.z, sx));
    let cy = arith::difference(f, s.p1.y, arith::product(f, s.p1.z, sy));
    (arith::sum(
        f,
        arith::product(f, sx, sx),
        arith::product(f, sy, sy),
    ), arith::product(
        f,
        TWO,
        arith::sum(f, arith::product(f, cx, sx), arith::product(f, cy, sy)),
    ), arith::sum(
        f,
        arith::product(f, cx, cx),
        arith::product(f, cy, cy),
    ))
}

/// Where a ray meets a hyperboloid that is flat: a ring between two radii.
pub open spec fn ring_met<F: Fn(Op, u64, u64) -> u64>(f: F, s: Hyperboloid, ray: Ray) -> Option<Intersection> {
    let (o, d) = traits::local_ray(f, s.place, ray);
    match level_reach(f, o, d, s.p1.z) {
        Some(t) => {
            let p = ray::along(f, o, d, t);
            let r = arith::sum(f, arith::product(f, p.x, p.x), arith::product(f, p.y, p.y));
            let r1 = arith::sum(
                f,
                arith::product(f, s.p1.x, s.p1.x),
                arith::product(f, s.p1.y, s.p1.y),
            );
            let r2 = arith::sum(
                f,
                arith::product(f, s.p2.x, s.p2.x),
                arith::product(f, s.p2.y, s.p2.y),
            );
            let off = double::below(r, double::lesser(r1, r2))
                || double::below(double::greater(r1, r2), r);
            if off || !traits::on_sweep(f, p, s.thetamax) {
                None
            } else {
                Some(traits::world_hit(f, s.place, ray, p, Vec3::of(ZERO, ZERO, ONE)))
            }
        },
        None => None,
    }
}

impl Hyperboloid {
    pub fn new<F: Fn(Op, u64, u64) -> u64>(
        p1: Vec3,
        p2: Vec3,
        thetamax: u64,
        material_id: usize,
        transform: Matrix4,
        f: &F,
    ) -> (r: Hyperboloid)
        requires
            computes(*f),
        ensures
            r == (Hyperboloid { p1, p2, thetamax, place: traits::placement(*f, material_id, transform) }),
    {
        Hyperboloid { p1, p2, thetamax, place: Placement::new(material_id, transform, f) }
    }
}

impl Hyperboloid {
    fn find_profile<F: Fn(Op, u64, u64) -> u64>(&self, f: &F) -> (r: (u64, u64, u64))
        requires
            computes(*f),
        ensures
            r == profile(*f, *self),
    {
        let u: u64 = over(f, ONE, minus(f, self.p2.z, self.p1.z));
        let sx: u64 = times(f, minus(f, self.p2.x, self.p1.x), u);
        let sy: u64 = times(f, minus(f, self.p2.y, self.p1.y), u);
        let cx: u64 = minus(f, self.p1.x, times(f, self.p1.z, sx));
        let cy: u64 = minus(f, self.p1.y, times(f, self.p1.z, sy));
        (plus(
            f,
            times(f, sx, sx),
            times(f, sy, sy),
        ), times(
            f,
            TWO,
            plus(f, times(f, cx, sx), times(f, cy, sy)),
        ), plus(
            f,
            times(f, cx, cx),
            times(f, cy, cy),
        ))
    }

    fn meet_ring<F: Fn(Op, u64, u64) -> u64>(&self, ray: &Ray, f: &F) -> (r: Option<Intersection>)
        requires
            computes(*f),
        ensures
            r == ring_met(*f, *self, *ray),
    {
        let (o, d): (Point3, Vec3) = self.place.localize(ray, f);
        match find_level(&o, &d, self.p1.z, f) {
            Some(t) => {
                let p: Point3 = go_along(&o, &d, t, f);
                let r: u64 = plus(f, times(f, p.x, p.x), times(f, p.y, p.y));
                let r1: u64 = plus(
                    f,
                    times(f, self.p1.x, self.p1.x),
                    times(f, self.p1.y, self.p1.y),
                );
                let r2: u64 = plus(
                    f,
                    times(f, self.p2.x, self.p2.x),
                    times(f, self.p2.y, self.p2.y),
                );
                let off: bool = double::less(r, double::smaller_of(r1, r2))
                    || double::less(double::larger_of(r1, r2), r);
                if off || !is_on_sweep(&p, self.thetamax, f) {
                    None
                } else {
                    Some(self.place.globalize(ray, &p, &Vec3::new(ZERO, ZERO, ONE), f))
                }
            },
            None => None,
        }
    }
}

/// Where a ray meets the primitive.
pub open spec fn hyperboloid_met<F: Fn(Op, u64, u64) -> u64>(f: F, s: Hyperboloid, ray: Ray) -> Option<Intersection> {
    let (o, d) = traits::local_ray(f, s.place, ray);
    let (pa, pb, pc) = profile(f, s);
    let a = arith::difference(
        f,
        arith::sum(f, arith::product(f, d.x, d.x), arith::product(f, d.y, d.y)),
        arith::product(f, arith::product(f, pa, d.z), d.z),
    );
    let b = arith::difference(
        f,
        arith::product(
            f,
            TWO,
            arith::difference(
                f,
                arith::sum(f, arith::product(f, o.x, d.x), arith::product(f, o.y, d.y)),
                arith::product(f, arith::product(f, pa, o.z), d.z),
            ),
        ),
        arith::product(f, pb, d.z),
    );
    let c = arith::difference(
        f,
        arith::difference(
            f,
            arith::difference(
                f,
                arith::sum(f, arith::product(f, o.x, o.x), arith::product(f, o.y, o.y)),
                arith::product(f, arith::product(f, pa, o.z), o.z),
            ),
            arith::product(f, pb, o.z),
        ),
        pc,
    );
    let low = double::lesser(s.p1.z, s.p2.z);
    let high = double::greater(s.p1.z, s.p2.z);
    let ts = candidates(f, a, b, c);
    if double::below(double::magnitude(arith::difference(f, s.p2.z, s.p1.z)), EPSILON) {
        ring_met(f, s, ray)
    } else {
        match first_on_band(f, o, d, low, high, s.thetamax, ts) {
            Some(t) => {
                let p = ray::along(f, o, d, t);
                let n = arith::unit(f, Vec3::of(
                    arith::product(f, TWO, p.x),
                    arith::product(f, TWO, p.y),
                    double::negated(
                        arith::sum(f, arith::product(f, arith::product(f, TWO, pa), p.z), pb),
                    ),
                ));
                Some(traits::world_hit(f, s.place, ray, p, n))
            },
            None => None,
        }
    }
}

/// What the primitive is.
pub open spec fn hyperboloid_desc(s: Hyperboloid) -> PrimitiveDesc {
    PrimitiveDesc {
        kind: PrimitiveKind::Hyperboloid {
            p1: s.p1,
            p2: s.p2,
            thetamax: s.thetamax,
        },
        place: s.place,
    }
}

impl Hyperboloid {
    /// Where a ray meets the primitive.
    pub fn intersect<F: Fn(Op, u64, u64) -> u64>(&self, ray: &Ray, f: &F) -> (r: Option<Intersection>)
        requires
            computes(*f),
        ensures
            r == hyperboloid_met(*f, *self, *ray),
    {
        if double::less(double::absolute(minus(f, self.p2.z, self.p1.z)), EPSILON) {
            return self.meet_ring(ray, f);
        }
        let (o, d): (Point3, Vec3) = self.place.localize(ray, f);
        let (pa, pb, pc): (u64, u64, u64) = self.find_profile(f);
        let a: u64 = minus(
            f,
            plus(f, times(f, d.x, d.x), times(f, d.y, d.y)),
            times(f, times(f, pa, d.z), d.z),
        );
        let b: u64 = minus(
            f,
            times(
                f,
                TWO,
                minus(
                    f,
                    plus(f, times(f, o.x, d.x), times(f, o.y, d.y)),
                    times(f, times(f, pa, o.z), d.z),
                ),
            ),
            times(f, pb, d.z),
        );
        let c: u64 = minus(
            f,
            minus(
                f,
                minus(
                    f,
                    plus(f, times(f, o.x, o.x), times(f, o.y, o.y)),
                    times(f, times(f, pa, o.z), o.z),
                ),
                times(f, pb, o.z),
            ),
            pc,
        );
        let low: u64 = double::smaller_of(self.p1.z, self.p2.z);
        let high: u64 = double::larger_of(self.p1.z, self.p2.z);
        let ts: Vec<u64> = find_candidates(a, b, c, f);
        match find_on_band(&o, &d, low, high, self.thetamax, &ts, f) {
            Some(t) => {
                let p: Point3 = go_along(&o, &d, t, f);
                let n: Vec3 = normalize_vector(
                    f,
                    Vec3::new(
                        times(f, TWO, p.x),
                        times(f, TWO, p.y),
                        double::negate(plus(f, times(f, times(f, TWO, pa), p.z), pb)),
                    ),
                );
                Some(self.place.globalize(ray, &p, &n, f))
            },
            None => None,
        }
    }

    /// What the primitive is.
    pub fn describe(&self) -> (r: PrimitiveDesc)
        ensures
            r == hyperboloid_desc(*self),
    {
        PrimitiveDesc {
            kind: PrimitiveKind::Hyperboloid {
                p1: self.p1,
                p2: self.p2,
                thetamax: self.thetamax,
            },
            place: self.place,
        }
    }
}

// ---- triangles -------------------------------------------------------------

/// A triangle, seen from both sides.
#[derive(Clone, Copy, Debug, PartialEq, Eq, Structural)]
pub struct Triangle {
    pub v0: Vec3,
    pub v1: Vec3,
    pub v2: Vec3,
    pub place: Placement,
}

/// The point with the coordinates of a vector.
pub open spec fn corner(v: Vec3) -> Point3 {
    Point3::of(v.x, v.y, v.z)
}

/// The vector with the other direction.
pub open spec fn opposite(v: Vec3) -> Vec3 {
    Vec3::of(double::negated(v.x), double::negated(v.y), double::negated(v.z))
}

impl Triangle {
    pub fn new<F: Fn(Op, u64, u64) -> u64>(
        v0: Vec3,
        v1: Vec3,
        v2: Vec3,
        material_id: usize,
        transform: Matrix4,
        f: &F,
    ) -> (r: Triangle)
        requires
            computes(*f),
        ensures
            r == (Triangle { v0, v1, v2, place: traits::placement(*f, material_id, transform) }),
    {
        Triangle { v0, v1, v2, place: Placement::new(material_id, transform, f) }
    }
}

/// Where a ray meets the primitive.
pub open spec fn triangle_met<F: Fn(Op, u64, u64) -> u64>(f: F, s: Triangle, ray: Ray) -> Option<Intersection> {
    let (o, d) = traits::local_ray(f, s.place, ray);
    let e1 = point::between(f, corner(s.v1), corner(s.v0));
    let e2 = point::between(f, corner(s.v2), corner(s.v0));
    let side = arith::cross_product(f, d, e2);
    let det = arith::dot_product(f, e1, side);
    let inverse = arith::quotient(f, ONE, det);
    let from = point::between(f, o, corner(s.v0));
    let u = arith::product(f, arith::dot_product(f, from, side), inverse);
    let q = arith::cross_product(f, from, e1);
    let v = arith::product(f, arith::dot_product(f, d, q), inverse);
    let t = arith::product(f, arith::dot_product(f, e2, q), inverse);
    let outward = arith::unit(f, arith::cross_product(f, e1, e2));
    let front = double::below(arith::dot_product(f, outward, d), ZERO);
    let n = if front {
        outward
    } else {
        opposite(outward)
    };
    if double::below(double::magnitude(det), TINY) {
        None
    } else if !(double::at_most(ZERO, u) && double::at_most(u, ONE)) {
        None
    } else if double::below(v, ZERO) || double::below(ONE, arith::sum(f, u, v)) {
        None
    } else if double::at_most(t, EPSILON) {
        None
    } else {
        let p = ray::along(f, o, d, t);
        Some(
            Intersection {
                front_face: front,
                ..traits::world_hit(f, s.place, ray, p, n)
            },
        )
    }
}

/// What the primitive is.
pub open spec fn triangle_desc(s: Triangle) -> PrimitiveDesc {
    PrimitiveDesc {
        kind: PrimitiveKind::Triangle {
            v0: s.v0,
            v1: s.v1,
            v2: s.v2,
        },
        place: s.place,
    }
}

impl Triangle {
    /// Where a ray meets the primitive.
    pub fn intersect<F: Fn(Op, u64, u64) -> u64>(&self, ray: &Ray, f: &F) -> (r: Option<Intersection>)
        requires
            computes(*f),
        ensures
            r == triangle_met(*f, *self, *ray),
    {
        let (o, d): (Point3, Vec3) = self.place.localize(ray, f);
        let v0: Point3 = Point3::new(self.v0.x, self.v0.y, self.v0.z);
        let e1: Vec3 = Point3::new(self.v1.x, self.v1.y, self.v1.z).from_point(&v0, f);
        let e2: Vec3 = Point3::new(self.v2.x, self.v2.y, self.v2.z).from_point(&v0, f);
        let side: Vec3 = cross_vectors(f, d, e2);
        let det: u64 = dot_vectors(f, e1, side);
        if double::less(double::absolute(det), TINY) {
            return None;
        }
        let inverse: u64 = over(f, ONE, det);
        let from: Vec3 = o.from_point(&v0, f);
        let u: u64 = times(f, dot_vectors(f, from, side), inverse);
        if !(double::less_or_equal(ZERO, u) && double::less_or_equal(u, ONE)) {
            return None;
        }
        let q: Vec3 = cross_vectors(f, from, e1);
        let v: u64 = times(f, dot_vectors(f, d, q), inverse);
        if double::less(v, ZERO) || double::less(ONE, plus(f, u, v)) {
            return None;
        }
        let t: u64 = times(f, dot_vectors(f, e2, q), inverse);
        if double::less_or_equal(t, EPSILON) {
            return None;
        }
        let p: Point3 = go_along(&o, &d, t, f);
        let outward: Vec3 = normalize_vector(f, cross_vectors(f, e1, e2));
        let front: bool = double::less(dot_vectors(f, outward, d), ZERO);
        let n: Vec3 = if front {
            outward
        } else {
            Vec3::new(
                double::negate(outward.x),
                double::negate(outward.y),
                double::negate(outward.z),
            )
        };
        Some(self.place.globalize(ray, &p, &n, f).with_front_face(front))
    }

    /// What the primitive is.
    pub fn describe(&self) -> (r: PrimitiveDesc)
        ensures
            r == triangle_desc(*self),
    {
        PrimitiveDesc {
            kind: PrimitiveKind::Triangle {
                v0: self.v0,
                v1: self.v1,
                v2: self.v2,
            },
            place: self.place,
        }
    }
}

} // verus!
