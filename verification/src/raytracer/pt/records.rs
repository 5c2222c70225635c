//! What the samples of a pixel come to: the means that the layers of a film show.

use crate::arith;
use crate::arith::{
    add_vectors, compute, computes, divide_vector, minus, multiply_vector, over, plus,
    subtract_vectors, times, Op,
};
use crate::double;
use crate::math::{Vec3, ONE, ZERO};
use crate::output::film;
use crate::output::film::dominant_id;
use crate::raytracer::pt::samples::PixelRecord;
use vstd::prelude::*;

verus! {

/// Samples brighter than this are dimmed.
pub const FIREFLY_CLAMP: u64 = 0x404e_0000_0000_0000;

/// How much red, green and blue count for brightness.
pub const RED_SHARE: u64 = 0x3fcb_367a_0f90_96bc;

pub const GREEN_SHARE: u64 = 0x3fe6_e2eb_1c43_2ca5;

pub const BLUE_SHARE: u64 = 0x3fb2_7bb2_fec5_6d5d;

/// A sample: the light that arrives, the part of it that was scattered diffusely first, and what
/// the path met first. A depth of 0 is none.
#[derive(Clone, Copy, Debug, PartialEq, Eq, Structural)]
pub struct Sample {
    pub light: Vec3,
    pub diffuse: Vec3,
    pub albedo: Vec3,
    pub normal: Vec3,
    pub depth: u64,
    pub id: u32,
}

/// How bright light is.
pub open spec fn luminance_of<F: Fn(Op, u64, u64) -> u64>(f: F, c: Vec3) -> u64 {
    arith::sum(
        f,
        arith::sum(
            f,
            arith::product(f, RED_SHARE, c.x),
            arith::product(f, GREEN_SHARE, c.y),
        ),
        arith::product(f, BLUE_SHARE, c.z),
    )
}

/// How bright light is.
pub fn luminance<F: Fn(Op, u64, u64) -> u64>(c: &Vec3, f: &F) -> (r: u64)
    requires
        computes(*f),
    ensures
        r == luminance_of(*f, *c),
{
    plus(
        f,
        plus(f, times(f, RED_SHARE, c.x), times(f, GREEN_SHARE, c.y)),
        times(f, BLUE_SHARE, c.z),
    )
}

/// A sample that is too bright dimmed, its diffuse part with it.
pub open spec fn dimmed<F: Fn(Op, u64, u64) -> u64>(f: F, s: Sample) -> Sample {
    let bright = luminance_of(f, s.light);
    if double::below(FIREFLY_CLAMP, bright) {
        let k = arith::quotient(f, FIREFLY_CLAMP, bright);
        Sample {
            light: arith::vector_multiple(f, s.light, k),
            diffuse: arith::vector_multiple(f, s.diffuse, k),
            ..s
        }
    } else {
        s
    }
}

impl Sample {
    /// The sample, dimmed where it is too bright.
    pub fn dim<F: Fn(Op, u64, u64) -> u64>(&self, f: &F) -> (r: Sample)
        requires
            computes(*f),
        ensures
            r == dimmed(*f, *self),
    {
        let bright: u64 = luminance(&self.light, f);
        if double::less(FIREFLY_CLAMP, bright) {
            let k: u64 = over(f, FIREFLY_CLAMP, bright);
            Sample {
                light: multiply_vector(f, self.light, k),
                diffuse: multiply_vector(f, self.diffuse, k),
                albedo: self.albedo,
                normal: self.normal,
                depth: self.depth,
                id: self.id,
            }
        } else {
            *self
        }
    }
}

/// Samples added up in their order. Those that have a depth are counted, and theirs added up.
pub struct Sums {
    pub light: Vec3,
    pub diffuse: Vec3,
    pub albedo: Vec3,
    pub normal: Vec3,
    pub depth: u64,
    pub hits: nat,
}

/// Samples added up.
pub open spec fn summed<F: Fn(Op, u64, u64) -> u64>(f: F, samples: Seq<Sample>) -> Sums
    decreases samples.len(),
{
    let zero = Vec3::of(ZERO, ZERO, ZERO);
    if samples.len() == 0 {
        Sums { light: zero, diffuse: zero, albedo: zero, normal: zero, depth: ZERO, hits: 0 }
    } else {
        let a = summed(f, samples.drop_last());
        let s = samples.last();
        let deep = double::below(ZERO, s.depth);
        Sums {
            light: arith::vector_sum(f, a.light, s.light),
            diffuse: arith::vector_sum(f, a.diffuse, s.diffuse),
            albedo: arith::vector_sum(f, a.albedo, s.albedo),
            normal: arith::vector_sum(f, a.normal, s.normal),
            depth: if deep {
                arith::sum(f, a.depth, s.depth)
            } else {
                a.depth
            },
            hits: if deep {
                a.hits + 1
            } else {
                a.hits
            },
        }
    }
}

/// A whole number as a double.
pub open spec fn whole(n: int) -> u64 {
    double::dyadic(n, 0)
}

/// A vector without what is below zero in it.
pub open spec fn not_below_zero(v: Vec3) -> Vec3 {
    Vec3::of(double::greater(v.x, ZERO), double::greater(v.y, ZERO), double::greater(v.z, ZERO))
}

/// The ids of samples.
pub open spec fn ids_of(samples: Seq<Sample>) -> Seq<u32> {
    samples.map_values(|s: Sample| s.id)
}

/// Whether an id is one that no other outvotes; 0 where there is none.
pub open spec fn is_dominant(ids: Seq<u32>, id: u32) -> bool {
    if ids.len() == 0 {
        id == 0
    } else {
        ids.contains(id) && forall|other: u32| #[trigger]
            film::votes_for(ids, other) <= film::votes_for(ids, id)
    }
}

/// What samples come to where `id` is the one that most of them met: their means, the light
/// that is not diffuse, the mean depth of those that have one, and how many of them met `id`.
pub open spec fn recorded<F: Fn(Op, u64, u64) -> u64>(f: F, samples: Seq<Sample>, id: u32) -> PixelRecord {
    let a = summed(f, samples);
    let share = arith::quotient(f, ONE, whole(samples.len() as int));
    let beauty = arith::vector_multiple(f, a.light, share);
    let diffuse = arith::vector_multiple(f, a.diffuse, share);
    PixelRecord {
        beauty,
        diffuse,
        specular: not_below_zero(arith::vector_difference(f, beauty, diffuse)),
        albedo: arith::vector_multiple(f, a.albedo, share),
        normal: arith::vector_multiple(f, a.normal, share),
        depth: if a.hits > 0 {
            arith::quotient(f, a.depth, whole(a.hits as int))
        } else {
            ZERO
        },
        id,
        coverage: arith::product(
            f,
            whole(film::votes_for(ids_of(samples), id) as int),
            share,
        ),
    }
}

/// What the samples of a pixel come to.
pub fn record<F: Fn(Op, u64, u64) -> u64>(samples: &Vec<Sample>, f: &F) -> (r: PixelRecord)
    requires
        computes(*f),
        samples@.len() <= u32::MAX,
    ensures
        is_dominant(ids_of(samples@), r.id),
        r == recorded(*f, samples@, r.id),
{
    let n: usize = samples.len();
    let mut light: Vec3 = Vec3::zero();
    let mut diffuse: Vec3 = Vec3::zero();
    let mut albedo: Vec3 = Vec3::zero();
    let mut normal: Vec3 = Vec3::zero();
    let mut depth: u64 = ZERO;
    let mut hits: u32 = 0;
    let mut ids: Vec<u32> = Vec::new();
    let mut i: usize = 0;
    assert(samples@.take(0) =~= seq![]);
    while i < n
        invariant
            i <= n == samples@.len(),
            n <= u32::MAX,
            computes(*f),
            hits <= i,
            ids@ == ids_of(samples@.take(i as int)),
            ({
                let a = summed(*f, samples@.take(i as int));
                &&& a.light == light && a.diffuse == diffuse && a.albedo == albedo
                &&& a.normal == normal && a.depth == depth && a.hits == hits
            }),
        decreases n - i,
    {
        let s: Sample = samples[i];
        assert(samples@.take(i + 1).drop_last() =~= samples@.take(i as int));
        light = add_vectors(f, light, s.light);
        diffuse = add_vectors(f, diffuse, s.diffuse);
        albedo = add_vectors(f, albedo, s.albedo);
        normal = add_vectors(f, normal, s.normal);
        if double::less(ZERO, s.depth) {
            depth = plus(f, depth, s.depth);
            hits += 1;
        }
        ids.push(s.id);
        i += 1;
        assert(ids@ =~= ids_of(samples@.take(i as int)));
    }
    assert(samples@.take(n as int) =~= samples@);
    let (id, votes): (u32, u32) = dominant_id(&ids);
    let share: u64 = over(f, ONE, double::dyadic_double(n as i64, 0));
    let beauty: Vec3 = multiply_vector(f, light, share);
    let matte: Vec3 = multiply_vector(f, diffuse, share);
    let rest: Vec3 = subtract_vectors(f, beauty, matte);
    PixelRecord {
        beauty,
        diffuse: matte,
        specular: Vec3::new(
            double::larger_of(rest.x, ZERO),
            double::larger_of(rest.y, ZERO),
            double::larger_of(rest.z, ZERO),
        ),
        albedo: multiply_vector(f, albedo, share),
        normal: multiply_vector(f, normal, share),
        depth: if hits > 0 {
            over(f, depth, double::dyadic_double(hits as i64, 0))
        } else {
            ZERO
        },
        id,
        coverage: times(f, double::dyadic_double(votes as i64, 0), share),
    }
}

// ---- running means ---------------------------------------------------------

/// Half the width of a confidence interval of 95 percent, in standard deviations.
pub const CONFIDENCE: u64 = 0x3fff_5c28_f5c2_8f5c;

/// Brightness below which a pixel counts as this bright.
pub const LEAST_BRIGHT: u64 = 0x3fa9_9999_9999_999a;

/// The mean of the samples so far, that of their brightness, and how far the brightness of each
/// was off, squared and added up.
#[derive(Clone, Copy, Debug, PartialEq, Eq, Structural)]
pub struct Running {
    pub mean: Vec3,
    pub lum: u64,
    pub m2: u64,
    pub n: u32,
}

/// The means after one more sample.
pub open spec fn moved_on<F: Fn(Op, u64, u64) -> u64>(f: F, a: Running, light: Vec3) -> Running {
    let n = (a.n + 1) as u32;
    let lum = luminance_of(f, light);
    let delta = arith::difference(f, lum, a.lum);
    let mean = arith::sum(f, a.lum, arith::quotient(f, delta, whole(n as int)));
    let off = arith::product(f, delta, arith::difference(f, lum, mean));
    let step = arith::vector_part(
        f,
        arith::vector_difference(f, light, a.mean),
        whole(n as int),
    );
    Running {
        mean: arith::vector_sum(f, a.mean, step),
        lum: mean,
        m2: arith::sum(f, a.m2, off),
        n,
    }
}

/// Whether the confidence interval of the brightness is narrower than a share of it.
pub open spec fn is_settled<F: Fn(Op, u64, u64) -> u64>(f: F, a: Running, tolerance: u64) -> bool {
    let n = whole(a.n as int);
    let variance = arith::quotient(f, a.m2, arith::difference(f, n, ONE));
    let deviation = arith::value(f, Op::Root, arith::quotient(f, variance, n), ZERO);
    double::below(
        arith::product(f, CONFIDENCE, deviation),
        arith::product(f, tolerance, double::greater(a.lum, LEAST_BRIGHT)),
    )
}

impl Running {
    /// No samples yet.
    pub fn new() -> (r: Running)
        ensures
            r == (Running { mean: Vec3::of(ZERO, ZERO, ZERO), lum: ZERO, m2: ZERO, n: 0 }),
    {
        Running { mean: Vec3::zero(), lum: ZERO, m2: ZERO, n: 0 }
    }

    /// The means after one more sample.
    pub fn with<F: Fn(Op, u64, u64) -> u64>(&self, light: &Vec3, f: &F) -> (r: Running)
        requires
            computes(*f),
            self.n < u32::MAX,
        ensures
            r == moved_on(*f, *self, *light),
    {
        let n: u32 = self.n + 1;
        let count: u64 = double::dyadic_double(n as i64, 0);
        let lum: u64 = luminance(light, f);
        let delta: u64 = minus(f, lum, self.lum);
        let mean: u64 = plus(f, self.lum, over(f, delta, count));
        let off: u64 = times(f, delta, minus(f, lum, mean));
        let step: Vec3 = divide_vector(f, subtract_vectors(f, *light, self.mean), count);
        Running {
            mean: add_vectors(f, self.mean, step),
            lum: mean,
            m2: plus(f, self.m2, off),
            n,
        }
    }

    /// Whether the pixel needs no more samples.
    pub fn settled<F: Fn(Op, u64, u64) -> u64>(&self, tolerance: u64, f: &F) -> (r: bool)
        requires
            computes(*f),
        ensures
            r == is_settled(*f, *self, tolerance),
    {
        let n: u64 = double::dyadic_double(self.n as i64, 0);
        let variance: u64 = over(f, self.m2, minus(f, n, ONE));
        let deviation: u64 = compute(f, Op::Root, over(f, variance, n), ZERO);
        double::less(
            times(f, CONFIDENCE, deviation),
            times(f, tolerance, double::larger_of(self.lum, LEAST_BRIGHT)),
        )
    }
}

} // verus!
