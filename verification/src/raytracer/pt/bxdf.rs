//! Shading frames, and how much light a boundary turns back.

use crate::arith;
use crate::arith::{
    add_vectors, compute, computes, cross_vectors, dot_vectors, minus, multiply_vector,
    normalize_vector, over, plus, times, Op,
};
use crate::double;
use crate::math::{Vec3, HALF, ONE, ZERO};
use vstd::prelude::*;

verus! {

/// 0.9
pub const NINE_TENTHS: u64 = 0x3fec_cccc_cccc_cccd;

/// A frame whose third axis is a normal.
#[derive(Clone, Copy, Debug, PartialEq, Eq, Structural)]
pub struct Frame {
    pub t: Vec3,
    pub b: Vec3,
    pub n: Vec3,
}

/// The frame of a normal: its first axis is at right angles to the normal and to an axis of
/// the world that the normal is not close to.
pub open spec fn frame_of<F: Fn(Op, u64, u64) -> u64>(f: F, n: Vec3) -> Frame {
    let aside = if double::below(NINE_TENTHS, double::magnitude(n.x)) {
        Vec3::of(ZERO, ONE, ZERO)
    } else {
        Vec3::of(ONE, ZERO, ZERO)
    };
    let t = arith::unit(f, arith::cross_product(f, n, aside));
    Frame { t, b: arith::cross_product(f, n, t), n }
}

/// A direction of the world, in a frame.
pub open spec fn inwards<F: Fn(Op, u64, u64) -> u64>(f: F, s: Frame, w: Vec3) -> Vec3 {
    Vec3::of(
        arith::dot_product(f, w, s.t),
        arith::dot_product(f, w, s.b),
        arith::dot_product(f, w, s.n),
    )
}

/// A direction of a frame, in the world.
pub open spec fn outwards<F: Fn(Op, u64, u64) -> u64>(f: F, s: Frame, w: Vec3) -> Vec3 {
    arith::vector_sum(
        f,
        arith::vector_sum(
            f,
            arith::vector_multiple(f, s.t, w.x),
            arith::vector_multiple(f, s.b, w.y),
        ),
        arith::vector_multiple(f, s.n, w.z),
    )
}

impl Frame {
    /// The frame of a normal.
    pub fn new<F: Fn(Op, u64, u64) -> u64>(n: Vec3, f: &F) -> (r: Frame)
        requires
            computes(*f),
        ensures
            r == frame_of(*f, n),
    {
        let aside: Vec3 = if double::less(NINE_TENTHS, double::absolute(n.x)) {
            Vec3::new(ZERO, ONE, ZERO)
        } else {
            Vec3::new(ONE, ZERO, ZERO)
        };
        let t: Vec3 = normalize_vector(f, cross_vectors(f, n, aside));
        Frame { t, b: cross_vectors(f, n, t), n }
    }

    /// A direction of the world, in the frame.
    pub fn to_local<F: Fn(Op, u64, u64) -> u64>(&self, w: &Vec3, f: &F) -> (r: Vec3)
        requires
            computes(*f),
        ensures
            r == inwards(*f, *self, *w),
    {
        Vec3::new(
            dot_vectors(f, *w, self.t),
            dot_vectors(f, *w, self.b),
            dot_vectors(f, *w, self.n),
        )
    }

    /// A direction of the frame, in the world.
    pub fn to_world<F: Fn(Op, u64, u64) -> u64>(&self, w: &Vec3, f: &F) -> (r: Vec3)
        requires
            computes(*f),
        ensures
            r == outwards(*f, *self, *w),
    {
        add_vectors(
            f,
            add_vectors(f, multiply_vector(f, self.t, w.x), multiply_vector(f, self.b, w.y)),
            multiply_vector(f, self.n, w.z),
        )
    }
}

/// How much light a boundary turns back, by the equations of Fresnel: all of it where none can
/// go through. `eta` is the index beyond over the index before.
pub open spec fn turned_back<F: Fn(Op, u64, u64) -> u64>(f: F, cos: u64, eta: u64) -> u64 {
    let c = double::clamped(cos, ZERO, ONE);
    let sin2 = arith::quotient(
        f,
        arith::difference(f, ONE, arith::product(f, c, c)),
        arith::product(f, eta, eta),
    );
    let through = arith::value(f, Op::Root, arith::difference(f, ONE, sin2), 0);
    let p = arith::quotient(
        f,
        arith::difference(f, arith::product(f, eta, c), through),
        arith::sum(f, arith::product(f, eta, c), through),
    );
    let s = arith::quotient(
        f,
        arith::difference(f, c, arith::product(f, eta, through)),
        arith::sum(f, c, arith::product(f, eta, through)),
    );
    if double::at_most(ONE, sin2) {
        ONE
    } else {
        arith::product(f, HALF, arith::sum(f, arith::product(f, p, p), arith::product(f, s, s)))
    }
}

/// How much light a boundary turns back.
pub fn fresnel_dielectric<F: Fn(Op, u64, u64) -> u64>(cos_i: u64, eta: u64, f: &F) -> (r: u64)
    requires
        computes(*f),
    ensures
        r == turned_back(*f, cos_i, eta),
{
    let c: u64 = double::clamp(cos_i, ZERO, ONE);
    let sin2: u64 = over(f, minus(f, ONE, times(f, c, c)), times(f, eta, eta));
    if double::less_or_equal(ONE, sin2) {
        return ONE;
    }
    let through: u64 = compute(f, Op::Root, minus(f, ONE, sin2), 0);
    let p: u64 = over(f, minus(f, times(f, eta, c), through), plus(f, times(f, eta, c), through));
    let s: u64 = over(f, minus(f, c, times(f, eta, through)), plus(f, c, times(f, eta, through)));
    times(f, HALF, plus(f, times(f, p, p), times(f, s, s)))
}

} // verus!
