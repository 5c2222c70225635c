//! Where rays meet the segments of curves: round cones with balls at their ends.

use crate::arith;
use crate::arith::{
    add_vectors, compute, computes, dot_vectors, minus, multiply_vector, normalize_vector, over,
    plus, subtract_vectors, times, Op,
};
use crate::double;
use crate::geometry::curves::{CurveEnd, CurveSegment, CurveSet};
use crate::geometry::hits;
use crate::geometry::hits::{subtract_singles, NEAR};
use crate::geometry::sphere::SLIGHT;
use crate::math::point;
use crate::math::{Point3, Vec3, HALF, ONE, TWO, ZERO};
use crate::raytracer::ray;
use crate::raytracer::ray::{go_along, Ray};
use vstd::prelude::*;

verus! {

/// A hit on a segment: how far along the ray, the outward normal, the direction of the curve,
/// and its parameter.
#[derive(Clone, Copy, Debug, PartialEq, Eq, Structural)]
pub struct SegmentHit {
    pub t: u64,
    pub normal: Vec3,
    pub tangent: Vec3,
    pub v: u64,
}

/// The point at an end of a segment.
pub open spec fn end_point(e: CurveEnd) -> Point3 {
    Point3::of(double::widened(e.x), double::widened(e.y), double::widened(e.z))
}

fn point_of_end(e: &CurveEnd) -> (r: Point3)
    ensures
        r == end_point(*e),
{
    Point3::new(double::widen(e.x), double::widen(e.y), double::widen(e.z))
}

/// Where a ray, whose direction need not be a unit, meets a ball before `t_max`: at the near
/// root or, where that is not ahead, at the far one.
pub open spec fn ball_hit<F: Fn(Op, u64, u64) -> u64>(f: F, r: Ray, center: Point3, radius: u64, t_max: u64) -> Option<
    (u64, Vec3),
> {
    let oc = point::between(f, r.origin, center);
    let a = arith::dot_product(f, r.direction, r.direction);
    let b = arith::dot_product(f, oc, r.direction);
    let c = arith::difference(f, arith::dot_product(f, oc, oc), arith::product(f, radius, radius));
    let disc = arith::difference(f, arith::product(f, b, b), arith::product(f, a, c));
    let s = arith::value(f, Op::Root, disc, 0);
    let near = arith::quotient(f, arith::difference(f, double::negated(b), s), a);
    let t = if double::at_most(near, NEAR) {
        arith::quotient(f, arith::sum(f, double::negated(b), s), a)
    } else {
        near
    };
    if double::below(disc, ZERO) || double::at_most(t, NEAR) || double::at_most(t_max, t) {
        None
    } else {
        let at = ray::along(f, r.origin, r.direction, t);
        Some((t, arith::unit(f, point::between(f, at, center))))
    }
}

fn find_ball_hit<F: Fn(Op, u64, u64) -> u64>(r: &Ray, center: &Point3, radius: u64, t_max: u64, f: &F) -> (h: Option<
    (u64, Vec3),
>)
    requires
        computes(*f),
    ensures
        h == ball_hit(*f, *r, *center, radius, t_max),
{
    let oc: Vec3 = r.origin.from_point(center, f);
    let a: u64 = dot_vectors(f, r.direction, r.direction);
    let b: u64 = dot_vectors(f, oc, r.direction);
    let c: u64 = minus(f, dot_vectors(f, oc, oc), times(f, radius, radius));
    let disc: u64 = minus(f, times(f, b, b), times(f, a, c));
    if double::less(disc, ZERO) {
        return None;
    }
    let s: u64 = compute(f, Op::Root, disc, 0);
    let near: u64 = over(f, minus(f, double::negate(b), s), a);
    let t: u64 = if double::less_or_equal(near, NEAR) {
        over(f, plus(f, double::negate(b), s), a)
    } else {
        near
    };
    if double::less_or_equal(t, NEAR) || double::less_or_equal(t_max, t) {
        return None;
    }
    let at: Point3 = go_along(&r.origin, &r.direction, t, f);
    Some((t, normalize_vector(f, at.from_point(center, f))))
}

/// What a ray and the axis of a cone have to do with each other: the axis, the way from its
/// start to the ray, the square of the length of the axis, the products of the axis with that
/// way and with the ray, and how far up the axis the cone goes.
pub struct Axis {
    pub ba: Vec3,
    pub oa: Vec3,
    pub m0: u64,
    pub m1: u64,
    pub m2: u64,
    pub d2: u64,
}

pub open spec fn axis_of<F: Fn(Op, u64, u64) -> u64>(f: F, r: Ray, pa: Point3, ra: u64, pb: Point3, rb: u64) -> Axis {
    let ba = point::between(f, pb, pa);
    let oa = point::between(f, r.origin, pa);
    let rr = arith::difference(f, ra, rb);
    let m0 = arith::dot_product(f, ba, ba);
    let m1 = arith::dot_product(f, ba, oa);
    let m2 = arith::dot_product(f, ba, r.direction);
    Axis { ba, oa, m0, m1, m2, d2: arith::difference(f, m0, arith::product(f, rr, rr)) }
}

/// Where a ray meets the side of a cone before `t_max`.
pub open spec fn side_hit<F: Fn(Op, u64, u64) -> u64>(f: F, r: Ray, x: Axis, ra: u64, rb: u64, t_max: u64) -> Option<
    (u64, Vec3),
> {
    let rr = arith::difference(f, ra, rb);
    let m3 = arith::dot_product(f, r.direction, x.oa);
    let m5 = arith::dot_product(f, x.oa, x.oa);
    let dd = arith::dot_product(f, r.direction, r.direction);
    let k2 = arith::difference(f, arith::product(f, x.d2, dd), arith::product(f, x.m2, x.m2));
    let k1 = arith::sum(
        f,
        arith::difference(f, arith::product(f, x.d2, m3), arith::product(f, x.m1, x.m2)),
        arith::product(f, arith::product(f, x.m2, rr), ra),
    );
    let k0 = arith::difference(
        f,
        arith::sum(
            f,
            arith::difference(f, arith::product(f, x.d2, m5), arith::product(f, x.m1, x.m1)),
            arith::product(f, arith::product(f, arith::product(f, x.m1, rr), ra), TWO),
        ),
        arith::product(f, arith::product(f, x.m0, ra), ra),
    );
    let h = arith::difference(f, arith::product(f, k1, k1), arith::product(f, k0, k2));
    let t = arith::quotient(
        f,
        arith::difference(f, double::negated(k1), arith::value(f, Op::Root, h, 0)),
        k2,
    );
    let y = arith::sum(f, x.m1, arith::product(f, t, x.m2));
    let ahead = double::below(NEAR, t) && double::below(t, t_max);
    let beside = double::below(ZERO, y) && double::below(y, x.d2);
    if double::below(SLIGHT, double::magnitude(k2)) && double::at_most(ZERO, h) && ahead && beside {
        Some((t, arith::unit(
            f,
            arith::vector_difference(
                f,
                arith::vector_multiple(
                    f,
                    arith::vector_sum(f, x.oa, arith::vector_multiple(f, r.direction, t)),
                    x.d2,
                ),
                arith::vector_multiple(f, x.ba, y),
            ),
        )))
    } else {
        None
    }
}

/// Where a ray meets the balls at the ends: each counts only on its own side, and the second
/// only where it is nearer than the first.
pub open spec fn cap_hit<F: Fn(Op, u64, u64) -> u64>(
    f: F,
    r: Ray,
    x: Axis,
    pa: Point3,
    ra: u64,
    pb: Point3,
    rb: u64,
    t_max: u64,
) -> Option<(u64, Vec3)> {
    let first = match ball_hit(f, r, pa, ra, t_max) {
        Some((t, n)) => if double::at_most(arith::sum(f, x.m1, arith::product(f, t, x.m2)), ZERO) {
            Some((t, n))
        } else {
            None
        },
        None => None,
    };
    let limit = match first {
        Some((t, _)) => t,
        None => t_max,
    };
    match ball_hit(f, r, pb, rb, limit) {
        Some((t, n)) => if double::at_most(x.d2, arith::sum(f, x.m1, arith::product(f, t, x.m2))) {
            Some((t, n))
        } else {
            first
        },
        None => first,
    }
}

/// Where a ray meets a cone with balls at its ends. One without a length is a ball.
pub open spec fn rounded_hit<F: Fn(Op, u64, u64) -> u64>(
    f: F,
    r: Ray,
    pa: Point3,
    ra: u64,
    pb: Point3,
    rb: u64,
    t_max: u64,
) -> Option<(u64, Vec3)> {
    let x = axis_of(f, r, pa, ra, pb, rb);
    if double::below(x.m0, SLIGHT) {
        ball_hit(f, r, pa, double::greater(ra, rb), t_max)
    } else {
        match side_hit(f, r, x, ra, rb, t_max) {
            Some(h) => Some(h),
            None => cap_hit(f, r, x, pa, ra, pb, rb, t_max),
        }
    }
}

fn find_side_hit<F: Fn(Op, u64, u64) -> u64>(r: &Ray, x: &Axis, ra: u64, rb: u64, t_max: u64, f: &F) -> (s: Option<
    (u64, Vec3),
>)
    requires
        computes(*f),
    ensures
        s == side_hit(*f, *r, *x, ra, rb, t_max),
{
    let rr: u64 = minus(f, ra, rb);
    let m3: u64 = dot_vectors(f, r.direction, x.oa);
    let m5: u64 = dot_vectors(f, x.oa, x.oa);
    let dd: u64 = dot_vectors(f, r.direction, r.direction);
    let k2: u64 = minus(f, times(f, x.d2, dd), times(f, x.m2, x.m2));
    let k1: u64 = plus(
        f,
        minus(f, times(f, x.d2, m3), times(f, x.m1, x.m2)),
        times(f, times(f, x.m2, rr), ra),
    );
    let k0: u64 = minus(
        f,
        plus(
            f,
            minus(f, times(f, x.d2, m5), times(f, x.m1, x.m1)),
            times(f, times(f, times(f, x.m1, rr), ra), TWO),
        ),
        times(f, times(f, x.m0, ra), ra),
    );
    if !double::less(SLIGHT, double::absolute(k2)) {
        return None;
    }
    let h: u64 = minus(f, times(f, k1, k1), times(f, k0, k2));
    if !double::less_or_equal(ZERO, h) {
        return None;
    }
    let t: u64 = over(f, minus(f, double::negate(k1), compute(f, Op::Root, h, 0)), k2);
    let y: u64 = plus(f, x.m1, times(f, t, x.m2));
    let ahead: bool = double::less(NEAR, t) && double::less(t, t_max);
    let beside: bool = double::less(ZERO, y) && double::less(y, x.d2);
    if ahead && beside {
        Some((t, normalize_vector(
            f,
            subtract_vectors(
                f,
                multiply_vector(f, add_vectors(f, x.oa, multiply_vector(f, r.direction, t)), x.d2),
                multiply_vector(f, x.ba, y),
            ),
        )))
    } else {
        None
    }
}

fn find_cap_hit<F: Fn(Op, u64, u64) -> u64>(
    r: &Ray,
    x: &Axis,
    pa: &Point3,
    ra: u64,
    pb: &Point3,
    rb: u64,
    t_max: u64,
    f: &F,
) -> (s: Option<(u64, Vec3)>)
    requires
        computes(*f),
    ensures
        s == cap_hit(*f, *r, *x, *pa, ra, *pb, rb, t_max),
{
    let mut best: Option<(u64, Vec3)> = None;
    let mut limit: u64 = t_max;
    if let Some((t, n)) = find_ball_hit(r, pa, ra, t_max, f) {
        if double::less_or_equal(plus(f, x.m1, times(f, t, x.m2)), ZERO) {
            best = Some((t, n));
            limit = t;
        }
    }
    if let Some((t, n)) = find_ball_hit(r, pb, rb, limit, f) {
        if double::less_or_equal(x.d2, plus(f, x.m1, times(f, t, x.m2))) {
            best = Some((t, n));
        }
    }
    best
}

/// Where a ray meets a cone with balls at its ends.
fn rounded_cone_intersect<F: Fn(Op, u64, u64) -> u64>(
    r: &Ray,
    pa: &Point3,
    ra: u64,
    pb: &Point3,
    rb: u64,
    t_max: u64,
    f: &F,
) -> (s: Option<(u64, Vec3)>)
    requires
        computes(*f),
    ensures
        s == rounded_hit(*f, *r, *pa, ra, *pb, rb, t_max),
{
    let ba: Vec3 = pb.from_point(pa, f);
    let oa: Vec3 = r.origin.from_point(pa, f);
    let rr: u64 = minus(f, ra, rb);
    let m0: u64 = dot_vectors(f, ba, ba);
    let m1: u64 = dot_vectors(f, ba, oa);
    let m2: u64 = dot_vectors(f, ba, r.direction);
    if double::less(m0, SLIGHT) {
        return find_ball_hit(r, pa, double::larger_of(ra, rb), t_max, f);
    }
    let d2: u64 = minus(f, m0, times(f, rr, rr));
    let x: Axis = Axis { ba, oa, m0, m1, m2, d2 };
    match find_side_hit(r, &x, ra, rb, t_max, f) {
        Some(h) => Some(h),
        None => find_cap_hit(r, &x, pa, ra, pb, rb, t_max, f),
    }
}

/// Where a ray meets a segment before `t_max`. The parameter runs along the axis; a segment
/// without a length is half way, and points up.
pub open spec fn segment_hit<F: Fn(Op, u64, u64) -> u64>(f: F, s: CurveSegment, r: Ray, t_max: u64) -> Option<SegmentHit> {
    let (pa, pb) = (end_point(s.p0), end_point(s.p1));
    let (ra, rb) = (double::widened(s.p0.radius), double::widened(s.p1.radius));
    match rounded_hit(f, r, pa, ra, pb, rb, t_max) {
        Some((t, normal)) => {
            let axis = point::between(f, pb, pa);
            let way = point::between(f, ray::along(f, r.origin, r.direction, t), pa);
            let len2 = arith::dot_product(f, axis, axis);
            let long = double::below(SLIGHT, len2);
            let along = if long {
                double::clamped(
                    arith::quotient(f, arith::dot_product(f, way, axis), len2),
                    ZERO,
                    ONE,
                )
            } else {
                HALF
            };
            let v0 = double::widened(s.v0);
            let more = hits::single_difference(f, s.v1, s.v0);
            let tangent = if long {
                arith::unit(f, axis)
            } else {
                Vec3::of(ZERO, ZERO, ONE)
            };
            Some(SegmentHit { t, normal, tangent, v: arith::sum(
                f,
                v0,
                arith::product(f, more, along),
            ) })
        },
        None => None,
    }
}

impl CurveSet {
    /// Where a ray, whose direction need not be a unit, meets a segment before `t_max`.
    pub fn intersect_segment<F: Fn(Op, u64, u64) -> u64>(&self, r: &Ray, seg: u32, t_max: u64, f: &F) -> (h: Option<
        SegmentHit,
    >)
        requires
            computes(*f),
            seg < self.segments@.len(),
        ensures
            h == segment_hit(*f, self.segments@[seg as int], *r, t_max),
    {
        let s: CurveSegment = self.segments[seg as usize];
        let (pa, pb): (Point3, Point3) = (point_of_end(&s.p0), point_of_end(&s.p1));
        let (ra, rb): (u64, u64) = (double::widen(s.p0.radius), double::widen(s.p1.radius));
        match rounded_cone_intersect(r, &pa, ra, &pb, rb, t_max, f) {
            Some((t, normal)) => {
                let axis: Vec3 = pb.from_point(&pa, f);
                let way: Vec3 = go_along(&r.origin, &r.direction, t, f).from_point(&pa, f);
                let len2: u64 = dot_vectors(f, axis, axis);
                let long: bool = double::less(SLIGHT, len2);
                let along: u64 = if long {
                    double::clamp(over(f, dot_vectors(f, way, axis), len2), ZERO, ONE)
                } else {
                    HALF
                };
                let v0: u64 = double::widen(s.v0);
                let more: u64 = subtract_singles(f, s.v1, s.v0);
                let tangent: Vec3 = if long {
                    normalize_vector(f, axis)
                } else {
                    Vec3::new(ZERO, ZERO, ONE)
                };
                Some(SegmentHit { t, normal, tangent, v: plus(f, v0, times(f, more, along)) })
            },
            None => None,
        }
    }
}

} // verus!
