//! Random walks below a surface: light that enters is scattered in the medium there until it
//! meets a surface from inside.

use crate::arith;
use crate::arith::{compute, computes, divide_vector, dot_vectors, minus, times, Op};
use crate::double;
use crate::math::{Point3, Vec3, ONE, TWO, ZERO};
use crate::raytracer::pt::sampler::Pcg32;
use crate::raytracer::pt::volume;
use crate::raytracer::pt::volume::{
    find_largest, sample_homogeneous, times_vector, MediumEvent, MediumValues,
};
use crate::raytracer::ray;
use crate::raytracer::ray::Ray;
use vstd::prelude::*;

verus! {

/// How often light is scattered at most.
pub const MAX_STEPS: u32 = 256;

/// The steps up to this one are never the random end of a walk.
pub const FREE_STEPS: u32 = 8;

/// The highest chance to go on.
pub const MOST_KEPT: u64 = 0x3fee_6666_6666_6666;

/// A full turn in radians.
pub const TURN: u64 = 0x4019_21fb_5444_2d18;

/// A surface that a ray meets: how far off, and the normal there.
#[derive(Clone, Copy, Debug, PartialEq, Eq, Structural)]
pub struct Wall {
    pub t: u64,
    pub normal: Vec3,
}

/// Where a walk leaves: the point, the normal that points away from the walk, and what is left
/// of the light.
#[derive(Clone, Copy, Debug, PartialEq, Eq, Structural)]
pub struct Exit {
    pub at: Point3,
    pub normal: Vec3,
    pub beta: Vec3,
}

/// The surface that a ray meets.
#[verifier::opaque]
pub open spec fn wall<M: Fn(Ray) -> Option<Wall>>(meet: M, r: Ray) -> Option<Wall> {
    choose|w: Option<Wall>| meet.ensures((r,), w)
}

/// Every ray meets one surface, or none.
pub open spec fn is_surround<M: Fn(Ray) -> Option<Wall>>(meet: M) -> bool {
    &&& forall|r: Ray| #[trigger] meet.requires((r,))
    &&& forall|r: Ray, v: Option<Wall>, w: Option<Wall>| #[trigger]
        meet.ensures((r,), v) && #[trigger] meet.ensures((r,), w) ==> v == w
}

fn find_wall<M: Fn(Ray) -> Option<Wall>>(meet: &M, r: Ray) -> (w: Option<Wall>)
    requires
        is_surround(*meet),
    ensures
        w == wall(*meet, r),
{
    let w: Option<Wall> = meet(r);
    proof {
        reveal(wall);
        assert(meet.ensures((r,), w));
    }
    w
}

/// A direction by two numbers from `[0, 1)`, all directions alike.
pub open spec fn direction_of<F: Fn(Op, u64, u64) -> u64>(f: F, u: u64, v: u64) -> Vec3 {
    let z = arith::difference(f, ONE, arith::product(f, TWO, u));
    let r = arith::value(
        f,
        Op::Root,
        double::greater(arith::difference(f, ONE, arith::product(f, z, z)), ZERO),
        ZERO,
    );
    let phi = arith::product(f, TURN, v);
    Vec3::of(
        arith::product(f, r, arith::value(f, Op::Cosine, phi, ZERO)),
        arith::product(f, r, arith::value(f, Op::Sine, phi, ZERO)),
        z,
    )
}

fn find_direction<F: Fn(Op, u64, u64) -> u64>(f: &F, u: u64, v: u64) -> (d: Vec3)
    requires
        computes(*f),
    ensures
        d == direction_of(*f, u, v),
{
    let z: u64 = minus(f, ONE, times(f, TWO, u));
    let r: u64 = compute(f, Op::Root, double::larger_of(minus(f, ONE, times(f, z, z)), ZERO), ZERO);
    let phi: u64 = times(f, TURN, v);
    Vec3::new(
        times(f, r, compute(f, Op::Cosine, phi, ZERO)),
        times(f, r, compute(f, Op::Sine, phi, ZERO)),
        z,
    )
}

/// The normal on the side that a ray heads for.
pub open spec fn outward<F: Fn(Op, u64, u64) -> u64>(f: F, normal: Vec3, direction: Vec3) -> Vec3 {
    if double::below(ZERO, arith::dot_product(f, normal, direction)) {
        normal
    } else {
        Vec3::of(double::negated(normal.x), double::negated(normal.y), double::negated(normal.z))
    }
}

/// Whether the walk goes on after a step, with what light, and the generator then. A walk that
/// has lost its light ends; a long one may end at random, and light that goes on then makes
/// up for it.
pub open spec fn kept<F: Fn(Op, u64, u64) -> u64>(f: F, beta: Vec3, s: (u64, u64), step: int) -> (
    Option<Vec3>,
    (u64, u64),
) {
    let q = double::lesser(volume::largest(beta), MOST_KEPT);
    if double::at_most(q, ZERO) {
        (None, s)
    } else if step <= FREE_STEPS {
        (Some(beta), s)
    } else if double::below(q, volume::drawn(s)) {
        (None, volume::next(s))
    } else {
        (Some(arith::vector_part(f, beta, q)), volume::next(s))
    }
}

/// Whether the walk goes on after a step, and with what light.
pub fn keep_on<F: Fn(Op, u64, u64) -> u64>(beta: &Vec3, step: u32, rng: &mut Pcg32, f: &F) -> (r: Option<
    Vec3,
>)
    requires
        computes(*f),
    ensures
        (r, final(rng)@) == kept(*f, *beta, old(rng)@, step as int),
{
    let q: u64 = double::smaller_of(find_largest(beta), MOST_KEPT);
    if double::less_or_equal(q, ZERO) {
        return None;
    }
    if step <= FREE_STEPS {
        return Some(*beta);
    }
    if double::less(q, rng.next_f64()) {
        None
    } else {
        Some(divide_vector(f, *beta, q))
    }
}

/// A walk from step `step` on: where it leaves, and the generator then. One that meets no
/// surface, or is scattered too often, leaves nowhere.
pub open spec fn wandered<F: Fn(Op, u64, u64) -> u64, M: Fn(Ray) -> Option<Wall>>(
    f: F,
    m: MediumValues,
    meet: M,
    r: Ray,
    beta: Vec3,
    s: (u64, u64),
    step: int,
) -> (Option<Exit>, (u64, u64))
    decreases MAX_STEPS - step,
{
    if step >= MAX_STEPS {
        (None, s)
    } else {
        match wall(meet, r) {
            None => (None, s),
            Some(w) => {
                let (event, s1) = volume::even_sample(
                    f,
                    m,
                    double::lesser(w.t, m.max_distance),
                    beta,
                    s,
                );
                match event {
                    MediumEvent::Pass { weight } => (
                        Some(
                            Exit {
                                at: ray::along(f, r.origin, r.direction, w.t),
                                normal: outward(f, w.normal, r.direction),
                                beta: volume::vector_times(f, beta, weight),
                            },
                        ),
                        s1,
                    ),
                    MediumEvent::Scatter { t, weight } => {
                        let s2 = volume::next(s1);
                        let d = direction_of(f, volume::drawn(s1), volume::drawn(s2));
                        let on = Ray {
                            time: r.time,
                            ..ray::ray_from(f, ray::along(f, r.origin, r.direction, t), d)
                        };
                        let (left, s3) = kept(
                            f,
                            volume::vector_times(f, beta, weight),
                            volume::next(s2),
                            step,
                        );
                        match left {
                            Some(beta) => wandered(f, m, meet, on, beta, s3, step + 1),
                            None => (None, s3),
                        }
                    },
                }
            },
        }
    }
}

/// A walk in an even medium: where it leaves.
pub fn wander<F: Fn(Op, u64, u64) -> u64, M: Fn(Ray) -> Option<Wall>>(
    m: &MediumValues,
    meet: &M,
    start: &Ray,
    beta: &Vec3,
    rng: &mut Pcg32,
    f: &F,
) -> (e: Option<Exit>)
    requires
        computes(*f),
        is_surround(*meet),
    ensures
        (e, final(rng)@) == wandered(*f, *m, *meet, *start, *beta, old(rng)@, 0),
{
    let mut r: Ray = *start;
    let mut left: Vec3 = *beta;
    let mut step: u32 = 0;
    while step < MAX_STEPS
        invariant
            computes(*f),
            is_surround(*meet),
            step <= MAX_STEPS,
            wandered(*f, *m, *meet, *start, *beta, old(rng)@, 0) == wandered(
                *f,
                *m,
                *meet,
                r,
                left,
                rng@,
                step as int,
            ),
        decreases MAX_STEPS - step,
    {
        let w: Wall = match find_wall(meet, r) {
            Some(w) => w,
            None => {
                return None;
            },
        };
        match sample_homogeneous(m, double::smaller_of(w.t, m.max_distance), &left, rng, f) {
            MediumEvent::Pass { weight } => {
                let normal: Vec3 = if double::less(ZERO, dot_vectors(f, w.normal, r.direction)) {
                    w.normal
                } else {
                    Vec3::new(
                        double::negate(w.normal.x),
                        double::negate(w.normal.y),
                        double::negate(w.normal.z),
                    )
                };
                return Some(
                    Exit { at: r.at(w.t, f), normal, beta: times_vector(f, left, weight) },
                );
            },
            MediumEvent::Scatter { t, weight } => {
                let u: u64 = rng.next_f64();
                let v: u64 = rng.next_f64();
                let d: Vec3 = find_direction(f, u, v);
                r = Ray::new(r.at(t, f), d, f).with_time(r.time);
                match keep_on(&times_vector(f, left, weight), step, rng, f) {
                    Some(beta) => {
                        left = beta;
                    },
                    None => {
                        return None;
                    },
                }
            },
        }
        step += 1;
    }
    None
}

} // verus!
