//! Transport in media: distances to the next collision, in even media by the closed form and
//! in uneven ones by delta tracking, and how much light is left along a segment. All
//! estimates are unbiased; colours share one sample, weighed by the mean of their densities.

use crate::accel::bvh::INFINITY;
use crate::arith;
use crate::arith::{
    compute, computes, divide_vector, dot_vectors, measure_vector, minus, multiply_vector, over,
    plus, subtract_vectors, times, Op, TINY,
};
use crate::double;
use crate::math::point;
use crate::math::{Point3, Vec3, EPSILON, ONE, THREE, ZERO};
use crate::parser::scene::Medium;
use crate::raytracer::pt::sampler;
use crate::raytracer::pt::sampler::Pcg32;
use crate::raytracer::ray;
use crate::raytracer::ray::go_along;
use vstd::prelude::*;

verus! {

/// 1e-300, 1e-9 and 1e-5.
pub const VANISHING: u64 = 0x01a5_6e1f_c2f8_f359;

pub const CLEAR: u64 = 0x3e11_2e0b_e826_d695;

pub const SHORT: u64 = 0x3ee4_f8b5_88e3_68f1;

/// 1/3
pub const THIRD: u64 = 0x3fd5_5555_5555_5555;

/// 11.43, 15.38 and 13.91: how much a surface of a colour scatters below.
pub const FIT_A: u64 = 0x4026_dc28_f5c2_8f5c;

pub const FIT_B: u64 = 0x402e_c28f_5c28_f5c3;

pub const FIT_C: u64 = 0x402b_d1eb_851e_b852;

/// 1.85, 7 and 0.8: how far light goes below it.
pub const FIT_D: u64 = 0x3ffd_9999_9999_999a;

pub const FIT_E: u64 = 0x401c_0000_0000_0000;

pub const FIT_F: u64 = 0x3fe9_9999_9999_999a;

/// How many collisions are tried.
pub const MOST_COLLISIONS: usize = 10000;

/// What a medium does to light: how much it scatters, how much it takes away in all, the most
/// that it takes away of any colour, and how far it reaches.
#[derive(Clone, Copy, Debug, PartialEq, Eq, Structural)]
pub struct MediumValues {
    pub sigma_s: Vec3,
    pub sigma_t: Vec3,
    pub majorant: u64,
    pub max_distance: u64,
}

/// What becomes of light on a segment.
#[derive(Clone, Copy, Debug, PartialEq, Eq, Structural)]
pub enum MediumEvent {
    /// Scattered at a distance; the weight holds what is left, what is scattered and the
    /// density of the sample.
    Scatter { t: u64, weight: Vec3 },
    /// At the end of the segment; the weight holds what is left and how likely that is.
    Pass { weight: Vec3 },
}

/// The density of an uneven medium at a point.
#[verifier::opaque]
pub open spec fn density<G: Fn(Point3) -> u64>(g: G, p: Point3) -> u64 {
    choose|r: u64| g.ensures((p,), r)
}

/// Every point has one density.
pub open spec fn is_field<G: Fn(Point3) -> u64>(g: G) -> bool {
    &&& forall|p: Point3| #[trigger] g.requires((p,))
    &&& forall|p: Point3, r: u64, s: u64| #[trigger]
        g.ensures((p,), r) && #[trigger] g.ensures((p,), s) ==> r == s
}

fn find_density<G: Fn(Point3) -> u64>(g: &G, p: Point3) -> (r: u64)
    requires
        is_field(*g),
    ensures
        r == density(*g, p),
{
    let r: u64 = g(p);
    proof {
        reveal(density);
    }
    r
}

/// Whatever a field gives is its density.
pub proof fn what_a_field_gives<G: Fn(Point3) -> u64>(g: G, p: Point3, r: u64)
    requires
        is_field(g),
        g.ensures((p,), r),
    ensures
        density(g, p) == r,
{
    reveal(density);
}

/// The number that a generator draws from `[0, 1)`.
pub open spec fn drawn(s: (u64, u64)) -> u64 {
    double::dyadic(sampler::pcg_output(s.0) as int, 32)
}

/// The generator after a draw.
pub open spec fn next(s: (u64, u64)) -> (u64, u64) {
    (sampler::pcg_step(s.0, s.1), s.1)
}

/// The mean of three colours.
pub open spec fn average<F: Fn(Op, u64, u64) -> u64>(f: F, v: Vec3) -> u64 {
    arith::quotient(f, arith::sum(f, arith::sum(f, v.x, v.y), v.z), THREE)
}

fn find_average<F: Fn(Op, u64, u64) -> u64>(f: &F, v: Vec3) -> (r: u64)
    requires
        computes(*f),
    ensures
        r == average(*f, v),
{
    over(f, plus(f, plus(f, v.x, v.y), v.z), THREE)
}

/// The largest of three colours.
pub open spec fn largest(v: Vec3) -> u64 {
    double::greater(double::greater(v.x, v.y), v.z)
}

pub(crate) fn find_largest(v: &Vec3) -> (r: u64)
    ensures
        r == largest(*v),
{
    double::larger_of(double::larger_of(v.x, v.y), v.z)
}

/// The product, colour by colour.
pub open spec fn vector_times<F: Fn(Op, u64, u64) -> u64>(f: F, a: Vec3, b: Vec3) -> Vec3 {
    Vec3::of(arith::product(f, a.x, b.x), arith::product(f, a.y, b.y), arith::product(f, a.z, b.z))
}

pub(crate) fn times_vector<F: Fn(Op, u64, u64) -> u64>(f: &F, a: Vec3, b: Vec3) -> (r: Vec3)
    requires
        computes(*f),
    ensures
        r == vector_times(*f, a, b),
{
    Vec3::new(times(f, a.x, b.x), times(f, a.y, b.y), times(f, a.z, b.z))
}

/// What is left of light after a distance.
pub open spec fn left_over<F: Fn(Op, u64, u64) -> u64>(f: F, v: Vec3, t: u64) -> Vec3 {
    Vec3::of(arith::value(
        f,
        Op::Exponential,
        arith::product(f, double::negated(v.x), t),
        0,
    ), arith::value(
        f,
        Op::Exponential,
        arith::product(f, double::negated(v.y), t),
        0,
    ), arith::value(
        f,
        Op::Exponential,
        arith::product(f, double::negated(v.z), t),
        0,
    ))
}

fn find_left_over<F: Fn(Op, u64, u64) -> u64>(f: &F, v: &Vec3, t: u64) -> (r: Vec3)
    requires
        computes(*f),
    ensures
        r == left_over(*f, *v, t),
{
    Vec3::new(compute(
        f,
        Op::Exponential,
        times(f, double::negate(v.x), t),
        0,
    ), compute(
        f,
        Op::Exponential,
        times(f, double::negate(v.y), t),
        0,
    ), compute(
        f,
        Op::Exponential,
        times(f, double::negate(v.z), t),
        0,
    ))
}

/// The shares of the colours: as in the throughput, or even ones where that is nothing.
pub open spec fn channel_weights<F: Fn(Op, u64, u64) -> u64>(f: F, beta: Vec3) -> Vec3 {
    let x = double::greater(beta.x, ZERO);
    let y = double::greater(beta.y, ZERO);
    let z = double::greater(beta.z, ZERO);
    let total = arith::sum(f, arith::sum(f, x, y), z);
    if double::at_most(total, TINY) {
        Vec3::of(THIRD, THIRD, THIRD)
    } else {
        Vec3::of(
            arith::quotient(f, x, total),
            arith::quotient(f, y, total),
            arith::quotient(f, z, total),
        )
    }
}

fn find_weights<F: Fn(Op, u64, u64) -> u64>(f: &F, beta: &Vec3) -> (r: Vec3)
    requires
        computes(*f),
    ensures
        r == channel_weights(*f, *beta),
{
    let x: u64 = double::larger_of(beta.x, ZERO);
    let y: u64 = double::larger_of(beta.y, ZERO);
    let z: u64 = double::larger_of(beta.z, ZERO);
    let total: u64 = plus(f, plus(f, x, y), z);
    if double::less_or_equal(total, TINY) {
        Vec3::new(THIRD, THIRD, THIRD)
    } else {
        Vec3::new(over(f, x, total), over(f, y, total), over(f, z, total))
    }
}

/// A vector over a density; nothing where the density vanishes.
pub open spec fn over_density<F: Fn(Op, u64, u64) -> u64>(f: F, v: Vec3, pdf: u64) -> Option<Vec3> {
    if double::at_most(pdf, VANISHING) {
        None
    } else {
        Some(arith::vector_part(f, v, pdf))
    }
}

/// What becomes of light in an even medium, where a colour is picked by `u` and the distance
/// by `v`.
pub open spec fn even_event<F: Fn(Op, u64, u64) -> u64>(
    f: F,
    sigma_s: Vec3,
    st: Vec3,
    t_max: u64,
    beta: Vec3,
    u: u64,
    v: u64,
) -> MediumEvent {
    let w = channel_weights(f, beta);
    let picked = if double::below(u, w.x) {
        st.x
    } else if double::below(u, arith::sum(f, w.x, w.y)) {
        st.y
    } else {
        st.z
    };
    let t = arith::quotient(
        f,
        double::negated(
            arith::value(f, Op::Logarithm, double::greater(arith::difference(f, ONE, v), TINY), 0),
        ),
        double::greater(picked, CLEAR),
    );
    if double::below(t, t_max) {
        let left = left_over(f, st, t);
        let pdf = arith::sum(
            f,
            arith::sum(
                f,
                arith::product(f, arith::product(f, w.x, st.x), left.x),
                arith::product(f, arith::product(f, w.y, st.y), left.y),
            ),
            arith::product(f, arith::product(f, w.z, st.z), left.z),
        );
        match over_density(f, vector_times(f, sigma_s, left), pdf) {
            Some(weight) => MediumEvent::Scatter { t, weight },
            None => MediumEvent::Pass { weight: Vec3::of(ZERO, ZERO, ZERO) },
        }
    } else {
        let left = left_over(f, st, t_max);
        let pdf = arith::sum(
            f,
            arith::sum(f, arith::product(f, w.x, left.x), arith::product(f, w.y, left.y)),
            arith::product(f, w.z, left.z),
        );
        match over_density(f, left, pdf) {
            Some(weight) => MediumEvent::Pass { weight },
            None => MediumEvent::Pass { weight: Vec3::of(ZERO, ZERO, ZERO) },
        }
    }
}

/// The same with a generator: a clear medium draws nothing.
pub open spec fn even_sample<F: Fn(Op, u64, u64) -> u64>(
    f: F,
    m: MediumValues,
    t_max: u64,
    beta: Vec3,
    s: (u64, u64),
) -> (MediumEvent, (u64, u64)) {
    if double::at_most(average(f, m.sigma_t), CLEAR) {
        (MediumEvent::Pass { weight: Vec3::of(ONE, ONE, ONE) }, s)
    } else {
        (
            even_event(f, m.sigma_s, m.sigma_t, t_max, beta, drawn(s), drawn(next(s))),
            next(next(s)),
        )
    }
}

/// What becomes of light in an even medium.
pub fn sample_homogeneous<F: Fn(Op, u64, u64) -> u64>(
    m: &MediumValues,
    t_max: u64,
    beta: &Vec3,
    rng: &mut Pcg32,
    f: &F,
) -> (r: MediumEvent)
    requires
        computes(*f),
    ensures
        (r, final(rng)@) == even_sample(*f, *m, t_max, *beta, old(rng)@),
{
    let st: Vec3 = m.sigma_t;
    if double::less_or_equal(find_average(f, st), CLEAR) {
        return MediumEvent::Pass { weight: Vec3::one() };
    }
    let w: Vec3 = find_weights(f, beta);
    let u: u64 = rng.next_f64();
    let picked: u64 = if double::less(u, w.x) {
        st.x
    } else if double::less(u, plus(f, w.x, w.y)) {
        st.y
    } else {
        st.z
    };
    let v: u64 = rng.next_f64();
    let t: u64 = over(
        f,
        double::negate(compute(f, Op::Logarithm, double::larger_of(minus(f, ONE, v), TINY), 0)),
        double::larger_of(picked, CLEAR),
    );
    if double::less(t, t_max) {
        let left: Vec3 = find_left_over(f, &st, t);
        let pdf: u64 = plus(
            f,
            plus(f, times(f, times(f, w.x, st.x), left.x), times(f, times(f, w.y, st.y), left.y)),
            times(f, times(f, w.z, st.z), left.z),
        );
        if double::less_or_equal(pdf, VANISHING) {
            return MediumEvent::Pass { weight: Vec3::zero() };
        }
        MediumEvent::Scatter { t, weight: divide_vector(f, times_vector(f, m.sigma_s, left), pdf) }
    } else {
        let left: Vec3 = find_left_over(f, &st, t_max);
        let pdf: u64 = plus(
            f,
            plus(f, times(f, w.x, left.x), times(f, w.y, left.y)),
            times(f, w.z, left.z),
        );
        if double::less_or_equal(pdf, VANISHING) {
            return MediumEvent::Pass { weight: Vec3::zero() };
        }
        MediumEvent::Pass { weight: divide_vector(f, left, pdf) }
    }
}

/// The distance of the next collision, where one was at `t`.
pub open spec fn next_collision<F: Fn(Op, u64, u64) -> u64>(f: F, majorant: u64, t: u64, u: u64) -> u64 {
    arith::difference(
        f,
        t,
        arith::quotient(
            f,
            arith::value(f, Op::Logarithm, double::greater(arith::difference(f, ONE, u), TINY), 0),
            majorant,
        ),
    )
}

fn find_collision<F: Fn(Op, u64, u64) -> u64>(majorant: u64, t: u64, u: u64, f: &F) -> (r: u64)
    requires
        computes(*f),
    ensures
        r == next_collision(*f, majorant, t, u),
{
    minus(
        f,
        t,
        over(f, compute(f, Op::Logarithm, double::larger_of(minus(f, ONE, u), TINY), 0), majorant),
    )
}

/// How likely a collision is a real one.
pub open spec fn chance<F: Fn(Op, u64, u64) -> u64>(f: F, m: MediumValues, rho: u64) -> u64 {
    let here = arith::vector_multiple(f, m.sigma_t, rho);
    double::clamped(arith::quotient(f, average(f, here), m.majorant), ZERO, ONE)
}

/// The weight after a collision that was none.
pub open spec fn passed_by<F: Fn(Op, u64, u64) -> u64>(f: F, m: MediumValues, rho: u64, weight: Vec3) -> Vec3 {
    let here = arith::vector_multiple(f, m.sigma_t, rho);
    let hit = chance(f, m, rho);
    let rest = double::greater(arith::difference(f, ONE, hit), CLEAR);
    vector_times(
        f,
        weight,
        Vec3::of(
            arith::quotient(
                f,
                arith::difference(f, ONE, arith::quotient(f, here.x, m.majorant)),
                rest,
            ),
            arith::quotient(
                f,
                arith::difference(f, ONE, arith::quotient(f, here.y, m.majorant)),
                rest,
            ),
            arith::quotient(
                f,
                arith::difference(f, ONE, arith::quotient(f, here.z, m.majorant)),
                rest,
            ),
        ),
    )
}

fn find_chance<F: Fn(Op, u64, u64) -> u64>(m: &MediumValues, rho: u64, f: &F) -> (r: u64)
    requires
        computes(*f),
    ensures
        r == chance(*f, *m, rho),
{
    let here: Vec3 = multiply_vector(f, m.sigma_t, rho);
    double::clamp(over(f, find_average(f, here), m.majorant), ZERO, ONE)
}

fn pass_by<F: Fn(Op, u64, u64) -> u64>(m: &MediumValues, rho: u64, weight: Vec3, f: &F) -> (r: Vec3)
    requires
        computes(*f),
    ensures
        r == passed_by(*f, *m, rho, weight),
{
    let here: Vec3 = multiply_vector(f, m.sigma_t, rho);
    let hit: u64 = find_chance(m, rho, f);
    let rest: u64 = double::larger_of(minus(f, ONE, hit), CLEAR);
    times_vector(
        f,
        weight,
        Vec3::new(
            over(f, minus(f, ONE, over(f, here.x, m.majorant)), rest),
            over(f, minus(f, ONE, over(f, here.y, m.majorant)), rest),
            over(f, minus(f, ONE, over(f, here.z, m.majorant)), rest),
        ),
    )
}

/// What becomes of light in an uneven medium from a collision on, with as many more to try.
pub open spec fn followed<F: Fn(Op, u64, u64) -> u64, G: Fn(Point3) -> u64>(
    f: F,
    g: G,
    m: MediumValues,
    o: Point3,
    d: Vec3,
    t_max: u64,
    t: u64,
    weight: Vec3,
    more: nat,
    s: (u64, u64),
) -> (MediumEvent, (u64, u64))
    decreases more,
{
    let at = next_collision(f, m.majorant, t, drawn(s));
    let rho = density(g, ray::along(f, o, d, at));
    let hit = chance(f, m, rho);
    let after = passed_by(f, m, rho, weight);
    if more == 0 {
        (MediumEvent::Pass { weight }, s)
    } else if double::at_most(t_max, at) {
        (MediumEvent::Pass { weight }, next(s))
    } else if double::below(drawn(next(s)), hit) {
        (
            MediumEvent::Scatter {
                t: at,
                weight: arith::vector_part(
                    f,
                    vector_times(f, weight, arith::vector_multiple(f, m.sigma_s, rho)),
                    arith::product(f, m.majorant, hit),
                ),
            },
            next(next(s)),
        )
    } else if double::below(largest(after), EPSILON) {
        (MediumEvent::Pass { weight: Vec3::of(ZERO, ZERO, ZERO) }, next(next(s)))
    } else {
        followed(f, g, m, o, d, t_max, at, after, (more - 1) as nat, next(next(s)))
    }
}

/// What becomes of light in an uneven medium.
pub open spec fn uneven_sample<F: Fn(Op, u64, u64) -> u64, G: Fn(Point3) -> u64>(
    f: F,
    g: G,
    m: MediumValues,
    o: Point3,
    d: Vec3,
    t_max: u64,
    s: (u64, u64),
) -> (MediumEvent, (u64, u64)) {
    let one = Vec3::of(ONE, ONE, ONE);
    if double::at_most(m.majorant, CLEAR) {
        (MediumEvent::Pass { weight: one }, s)
    } else {
        followed(f, g, m, o, d, t_max, ZERO, one, MOST_COLLISIONS as nat, s)
    }
}

/// What becomes of light in an uneven medium.
pub fn sample_delta_tracked<F: Fn(Op, u64, u64) -> u64, G: Fn(Point3) -> u64>(
    m: &MediumValues,
    g: &G,
    o: &Point3,
    d: &Vec3,
    t_max: u64,
    rng: &mut Pcg32,
    f: &F,
) -> (r: MediumEvent)
    requires
        computes(*f),
        is_field(*g),
    ensures
        (r, final(rng)@) == uneven_sample(*f, *g, *m, *o, *d, t_max, old(rng)@),
{
    if double::less_or_equal(m.majorant, CLEAR) {
        return MediumEvent::Pass { weight: Vec3::one() };
    }
    let mut t: u64 = ZERO;
    let mut weight: Vec3 = Vec3::one();
    let mut more: usize = MOST_COLLISIONS;
    while more > 0
        invariant
            computes(*f),
            is_field(*g),
            !double::at_most(m.majorant, CLEAR),
            uneven_sample(*f, *g, *m, *o, *d, t_max, old(rng)@) == followed(
                *f,
                *g,
                *m,
                *o,
                *d,
                t_max,
                t,
                weight,
                more as nat,
                rng@,
            ),
        decreases more,
    {
        let u: u64 = rng.next_f64();
        t = find_collision(m.majorant, t, u, f);
        if double::less_or_equal(t_max, t) {
            return MediumEvent::Pass { weight };
        }
        let rho: u64 = find_density(g, go_along(o, d, t, f));
        let hit: u64 = find_chance(m, rho, f);
        let v: u64 = rng.next_f64();
        if double::less(v, hit) {
            let scattered: Vec3 = times_vector(f, weight, multiply_vector(f, m.sigma_s, rho));
            return MediumEvent::Scatter {
                t,
                weight: divide_vector(f, scattered, times(f, m.majorant, hit)),
            };
        }
        weight = pass_by(m, rho, weight, f);
        if double::less(find_largest(&weight), EPSILON) {
            return MediumEvent::Pass { weight: Vec3::zero() };
        }
        more -= 1;
    }
    MediumEvent::Pass { weight }
}

/// What becomes of light on a segment: a medium reaches only so far, and beyond it the segment
/// is free.
pub fn sample_distance<F: Fn(Op, u64, u64) -> u64, G: Fn(Point3) -> u64>(
    m: &MediumValues,
    field: Option<&G>,
    o: &Point3,
    d: &Vec3,
    t_max: u64,
    beta: &Vec3,
    rng: &mut Pcg32,
    f: &F,
) -> (r: MediumEvent)
    requires
        computes(*f),
        field matches Some(g) ==> is_field(*g),
    ensures
        (r, final(rng)@) == match field {
            None => even_sample(
                *f,
                *m,
                double::lesser(t_max, m.max_distance),
                *beta,
                old(rng)@,
            ),
            Some(g) => uneven_sample(
                *f,
                *g,
                *m,
                *o,
                *d,
                double::lesser(t_max, m.max_distance),
                old(rng)@,
            ),
        },
{
    let reach: u64 = double::smaller_of(t_max, m.max_distance);
    match field {
        None => sample_homogeneous(m, reach, beta, rng, f),
        Some(g) => sample_delta_tracked(m, g, o, d, reach, rng, f),
    }
}

/// What is left of light after a collision that is weighed by its chance.
pub open spec fn thinned<F: Fn(Op, u64, u64) -> u64>(f: F, m: MediumValues, rho: u64, left: Vec3) -> Vec3 {
    vector_times(
        f,
        left,
        Vec3::of(
            arith::difference(
                f,
                ONE,
                arith::quotient(f, arith::product(f, m.sigma_t.x, rho), m.majorant),
            ),
            arith::difference(
                f,
                ONE,
                arith::quotient(f, arith::product(f, m.sigma_t.y, rho), m.majorant),
            ),
            arith::difference(
                f,
                ONE,
                arith::quotient(f, arith::product(f, m.sigma_t.z, rho), m.majorant),
            ),
        ),
    )
}

/// What is left of light from a collision on, with as many more to try.
pub open spec fn ratio_tracked<F: Fn(Op, u64, u64) -> u64, G: Fn(Point3) -> u64>(
    f: F,
    g: G,
    m: MediumValues,
    o: Point3,
    d: Vec3,
    end: u64,
    t: u64,
    left: Vec3,
    more: nat,
    s: (u64, u64),
) -> (Vec3, (u64, u64))
    decreases more,
{
    let at = next_collision(f, m.majorant, t, drawn(s));
    let after = thinned(f, m, density(g, ray::along(f, o, d, at)), left);
    if more == 0 {
        (left, s)
    } else if double::at_most(end, at) {
        (left, next(s))
    } else if double::below(largest(after), SHORT) {
        (Vec3::of(ZERO, ZERO, ZERO), next(s))
    } else {
        ratio_tracked(f, g, m, o, d, end, at, after, (more - 1) as nat, next(s))
    }
}

/// What is left of light after a distance: by the closed form in an even medium, in an uneven
/// one by ratio tracking.
pub open spec fn transmitted<F: Fn(Op, u64, u64) -> u64, G: Fn(Point3) -> u64>(
    f: F,
    field: Option<&G>,
    m: MediumValues,
    o: Point3,
    d: Vec3,
    dist: u64,
    s: (u64, u64),
) -> (Vec3, (u64, u64)) {
    let end = double::lesser(dist, m.max_distance);
    let one = Vec3::of(ONE, ONE, ONE);
    match field {
        None => (left_over(f, m.sigma_t, end), s),
        Some(g) => if double::at_most(m.majorant, CLEAR) {
            (one, s)
        } else {
            ratio_tracked(f, *g, m, o, d, end, ZERO, one, MOST_COLLISIONS as nat, s)
        },
    }
}

/// What is left of light after a distance.
pub fn transmittance<F: Fn(Op, u64, u64) -> u64, G: Fn(Point3) -> u64>(
    m: &MediumValues,
    field: Option<&G>,
    o: &Point3,
    d: &Vec3,
    dist: u64,
    rng: &mut Pcg32,
    f: &F,
) -> (r: Vec3)
    requires
        computes(*f),
        field matches Some(g) ==> is_field(*g),
    ensures
        (r, final(rng)@) == transmitted(*f, field, *m, *o, *d, dist, old(rng)@),
{
    let end: u64 = double::smaller_of(dist, m.max_distance);
    let g: &G = match field {
        None => {
            return find_left_over(f, &m.sigma_t, end);
        },
        Some(g) => g,
    };
    if double::less_or_equal(m.majorant, CLEAR) {
        return Vec3::one();
    }
    let mut t: u64 = ZERO;
    let mut left: Vec3 = Vec3::one();
    let mut more: usize = MOST_COLLISIONS;
    while more > 0
        invariant
            computes(*f),
            is_field(*g),
            transmitted(*f, field, *m, *o, *d, dist, old(rng)@) == ratio_tracked(
                *f,
                *g,
                *m,
                *o,
                *d,
                end,
                t,
                left,
                more as nat,
                rng@,
            ),
        decreases more,
    {
        let u: u64 = rng.next_f64();
        t = find_collision(m.majorant, t, u, f);
        if double::less_or_equal(end, t) {
            return left;
        }
        let rho: u64 = find_density(g, go_along(o, d, t, f));
        left = times_vector(
            f,
            left,
            Vec3::new(
                minus(f, ONE, over(f, times(f, m.sigma_t.x, rho), m.majorant)),
                minus(f, ONE, over(f, times(f, m.sigma_t.y, rho), m.majorant)),
                minus(f, ONE, over(f, times(f, m.sigma_t.z, rho), m.majorant)),
            ),
        );
        if double::less(find_largest(&left), SHORT) {
            return Vec3::zero();
        }
        more -= 1;
    }
    left
}

/// Where a light stands to a line: how far along the line it is nearest, how far off it is
/// there, the angle at which the line starts, and the angle that it goes through.
pub open spec fn sight<F: Fn(Op, u64, u64) -> u64>(f: F, o: Point3, d: Vec3, t_max: u64, light: Point3) -> (
    u64,
    u64,
    u64,
    u64,
) {
    let delta = arith::dot_product(f, point::between(f, light, o), d);
    let off = point::between(f, light, ray::along(f, o, d, delta));
    let h = double::greater(arith::vector_length(f, off), EPSILON);
    let a = arith::value(f, Op::ArcTangent, arith::quotient(f, double::negated(delta), h), 0);
    let b = arith::value(
        f,
        Op::ArcTangent,
        arith::quotient(f, arith::difference(f, t_max, delta), h),
        0,
    );
    (delta, h, a, double::greater(arith::difference(f, b, a), CLEAR))
}

fn find_sight<F: Fn(Op, u64, u64) -> u64>(o: &Point3, d: &Vec3, t_max: u64, light: &Point3, f: &F) -> (r: (
    u64,
    u64,
    u64,
    u64,
))
    requires
        computes(*f),
    ensures
        r == sight(*f, *o, *d, t_max, *light),
{
    let delta: u64 = dot_vectors(f, light.from_point(o, f), *d);
    let off: Vec3 = light.from_point(&go_along(o, d, delta, f), f);
    let h: u64 = double::larger_of(measure_vector(f, off), EPSILON);
    let a: u64 = compute(f, Op::ArcTangent, over(f, double::negate(delta), h), 0);
    let b: u64 = compute(f, Op::ArcTangent, over(f, minus(f, t_max, delta), h), 0);
    (delta, h, a, double::larger_of(minus(f, b, a), CLEAR))
}

/// The density at a distance of samples that are even in the angle under which a light sees
/// the line.
pub open spec fn angular_density<F: Fn(Op, u64, u64) -> u64>(
    f: F,
    o: Point3,
    d: Vec3,
    t_max: u64,
    light: Point3,
    t: u64,
) -> u64 {
    let (delta, h, a, span) = sight(f, o, d, t_max, light);
    arith::quotient(
        f,
        h,
        arith::product(
            f,
            span,
            arith::sum(
                f,
                arith::product(f, h, h),
                arith::product(f, arith::difference(f, t, delta), arith::difference(f, t, delta)),
            ),
        ),
    )
}

/// The distance whose angle is a share of the angles of the line.
pub open spec fn angular_distance<F: Fn(Op, u64, u64) -> u64>(
    f: F,
    o: Point3,
    d: Vec3,
    t_max: u64,
    light: Point3,
    u: u64,
) -> u64 {
    let (delta, h, a, span) = sight(f, o, d, t_max, light);
    let t = arith::sum(
        f,
        delta,
        arith::product(
            f,
            h,
            arith::value(f, Op::Tangent, arith::sum(f, a, arith::product(f, u, span)), 0),
        ),
    );
    double::clamped(t, ZERO, t_max)
}

/// A distance where the light of a point is brightest, and its density.
pub fn equiangular_sample<F: Fn(Op, u64, u64) -> u64>(
    o: &Point3,
    d: &Vec3,
    t_max: u64,
    light: &Point3,
    u: u64,
    f: &F,
) -> (r: (u64, u64))
    requires
        computes(*f),
    ensures
        r.0 == angular_distance(*f, *o, *d, t_max, *light, u),
        r.1 == angular_density(*f, *o, *d, t_max, *light, r.0),
{
    let (delta, h, a, span): (u64, u64, u64, u64) = find_sight(o, d, t_max, light, f);
    let far: u64 = plus(
        f,
        delta,
        times(f, h, compute(f, Op::Tangent, plus(f, a, times(f, u, span)), 0)),
    );
    let t: u64 = double::clamp(far, ZERO, t_max);
    (t, over(
        f,
        h,
        times(f, span, plus(f, times(f, h, h), times(f, minus(f, t, delta), minus(f, t, delta)))),
    ))
}

/// The density of such samples at a distance.
pub fn equiangular_pdf<F: Fn(Op, u64, u64) -> u64>(
    o: &Point3,
    d: &Vec3,
    t_max: u64,
    light: &Point3,
    t: u64,
    f: &F,
) -> (r: u64)
    requires
        computes(*f),
    ensures
        r == angular_density(*f, *o, *d, t_max, *light, t),
{
    let (delta, h, _, span): (u64, u64, u64, u64) = find_sight(o, d, t_max, light, f);
    over(
        f,
        h,
        times(f, span, plus(f, times(f, h, h), times(f, minus(f, t, delta), minus(f, t, delta)))),
    )
}

/// The density of the distances of a medium, as if it took away the mean of every colour.
pub open spec fn mean_density<F: Fn(Op, u64, u64) -> u64>(f: F, sigma_t: Vec3, t: u64, t_max: u64) -> u64 {
    let s = double::greater(
        arith::quotient(f, arith::sum(f, arith::sum(f, sigma_t.x, sigma_t.y), sigma_t.z), THREE),
        CLEAR,
    );
    if double::below(t, t_max) {
        arith::product(
            f,
            s,
            arith::value(f, Op::Exponential, arith::product(f, double::negated(s), t), 0),
        )
    } else {
        arith::value(f, Op::Exponential, arith::product(f, double::negated(s), t_max), 0)
    }
}

/// The density of the distances of a medium, as if it took away the mean of every colour.
pub fn distance_pdf_approx<F: Fn(Op, u64, u64) -> u64>(sigma_t: &Vec3, t: u64, t_max: u64, f: &F) -> (r: u64)
    requires
        computes(*f),
    ensures
        r == mean_density(*f, *sigma_t, t, t_max),
{
    let s: u64 = double::larger_of(
        over(f, plus(f, plus(f, sigma_t.x, sigma_t.y), sigma_t.z), THREE),
        CLEAR,
    );
    if double::less(t, t_max) {
        times(f, s, compute(f, Op::Exponential, times(f, double::negate(s), t), 0))
    } else {
        compute(f, Op::Exponential, times(f, double::negate(s), t_max), 0)
    }
}

/// How much of light is scattered at each collision below a surface, so that it has a colour.
pub open spec fn albedo<F: Fn(Op, u64, u64) -> u64>(f: F, a: u64) -> u64 {
    arith::difference(
        f,
        ONE,
        arith::value(
            f,
            Op::Exponential,
            arith::product(
                f,
                double::negated(a),
                arith::sum(
                    f,
                    arith::difference(f, FIT_A, arith::product(f, FIT_B, a)),
                    arith::product(f, arith::product(f, FIT_C, a), a),
                ),
            ),
            0,
        ),
    )
}

/// How much light is taken away below a surface of a colour, for a mean free path.
pub open spec fn extinction<F: Fn(Op, u64, u64) -> u64>(f: F, a: u64, dmfp: u64) -> u64 {
    arith::quotient(
        f,
        arith::sum(
            f,
            arith::difference(f, FIT_D, a),
            arith::product(
                f,
                FIT_E,
                arith::value(
                    f,
                    Op::Power,
                    double::magnitude(arith::difference(f, a, FIT_F)),
                    THREE,
                ),
            ),
        ),
        double::greater(dmfp, SHORT),
    )
}

/// What is taken away and what is scattered below a surface: of one colour.
pub open spec fn below_surface<F: Fn(Op, u64, u64) -> u64>(f: F, color: u64, dmfp: u64) -> (u64, u64) {
    let a = double::clamped(color, ZERO, ONE);
    let t = extinction(f, a, dmfp);
    let s = arith::product(f, albedo(f, double::clamped(a, ZERO, ONE)), t);
    (arith::difference(f, t, s), s)
}

fn go_below<F: Fn(Op, u64, u64) -> u64>(color: u64, dmfp: u64, f: &F) -> (r: (u64, u64))
    requires
        computes(*f),
    ensures
        r == below_surface(*f, color, dmfp),
{
    let clamped: u64 = double::clamp(color, ZERO, ONE);
    let a: u64 = clamped;
    let t: u64 = over(
        f,
        plus(
            f,
            minus(f, FIT_D, a),
            times(f, FIT_E, compute(f, Op::Power, double::absolute(minus(f, a, FIT_F)), THREE)),
        ),
        double::larger_of(dmfp, SHORT),
    );
    let a: u64 = double::clamp(clamped, ZERO, ONE);
    let alpha: u64 = minus(
        f,
        ONE,
        compute(
            f,
            Op::Exponential,
            times(
                f,
                double::negate(a),
                plus(f, minus(f, FIT_A, times(f, FIT_B, a)), times(f, times(f, FIT_C, a), a)),
            ),
            0,
        ),
    );
    let s: u64 = times(f, alpha, t);
    (minus(f, t, s), s)
}

/// The medium of a random walk below a surface, by its colour and mean free path: even, without
/// an end, and neither alight nor with a direction of its own.
pub open spec fn medium_below<F: Fn(Op, u64, u64) -> u64>(f: F, color: Vec3, dmfp: Vec3) -> Medium {
    let x = below_surface(f, color.x, dmfp.x);
    let y = below_surface(f, color.y, dmfp.y);
    let z = below_surface(f, color.z, dmfp.z);
    Medium {
        sigma_a: Vec3::of(x.0, y.0, z.0),
        sigma_s: Vec3::of(x.1, y.1, z.1),
        g: ZERO,
        density: None,
        emission: Vec3::of(ZERO, ZERO, ZERO),
        max_distance: INFINITY,
    }
}

/// The medium of a random walk below a surface, by its colour and mean free path.
pub fn sss_medium<F: Fn(Op, u64, u64) -> u64>(color: &Vec3, dmfp: &Vec3, f: &F) -> (r: Medium)
    requires
        computes(*f),
    ensures
        r == medium_below(*f, *color, *dmfp),
{
    let (ax, sx): (u64, u64) = go_below(color.x, dmfp.x, f);
    let (ay, sy): (u64, u64) = go_below(color.y, dmfp.y, f);
    let (az, sz): (u64, u64) = go_below(color.z, dmfp.z, f);
    Medium {
        sigma_a: Vec3::new(ax, ay, az),
        sigma_s: Vec3::new(sx, sy, sz),
        g: ZERO,
        density: None,
        emission: Vec3::zero(),
        max_distance: INFINITY,
    }
}

/// A colour gives the same medium as the colour with each component brought into [0, 1].
pub proof fn colours_are_clamped<F: Fn(Op, u64, u64) -> u64>(f: F, color: Vec3, dmfp: Vec3)
    ensures
        medium_below(f, color, dmfp) == medium_below(
            f,
            Vec3::of(
                double::clamped(color.x, ZERO, ONE),
                double::clamped(color.y, ZERO, ONE),
                double::clamped(color.z, ZERO, ONE),
            ),
            dmfp,
        ),
{
}

} // verus!
