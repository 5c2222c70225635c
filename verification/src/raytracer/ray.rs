//! Rays.

use crate::arith;
use crate::arith::{computes, multiply_vector, normalize_vector, Op};
use crate::math::point;
use crate::math::{Point3, Vec3, ZERO};
use vstd::prelude::*;

verus! {

/// A ray: its direction is a unit. `time` says how far the shutter is open, from 0 to 1; it
/// is 0 where the ray carries none.
#[derive(Clone, Copy, Debug, PartialEq, Eq, Structural)]
pub struct Ray {
    pub origin: Point3,
    pub direction: Vec3,
    pub time: u64,
}

/// The ray from a point in a direction.
pub open spec fn ray_from<F: Fn(Op, u64, u64) -> u64>(f: F, origin: Point3, direction: Vec3) -> Ray {
    Ray { origin, direction: arith::unit(f, direction), time: ZERO }
}

/// A point on a line.
pub open spec fn along<F: Fn(Op, u64, u64) -> u64>(f: F, origin: Point3, direction: Vec3, t: u64) -> Point3 {
    point::moved(f, origin, arith::vector_multiple(f, direction, t))
}

/// A point on a line.
pub fn go_along<F: Fn(Op, u64, u64) -> u64>(origin: &Point3, direction: &Vec3, t: u64, f: &F) -> (r: Point3)
    requires
        computes(*f),
    ensures
        r == along(*f, *origin, *direction, t),
{
    origin.step(&multiply_vector(f, *direction, t), f)
}

impl Ray {
    /// The ray from a point in a direction.
    pub fn new<F: Fn(Op, u64, u64) -> u64>(origin: Point3, direction: Vec3, f: &F) -> (r: Ray)
        requires
            computes(*f),
        ensures
            r == ray_from(*f, origin, direction),
    {
        Ray { origin, direction: normalize_vector(f, direction), time: ZERO }
    }

    /// The ray at a shutter time.
    pub fn with_time(self, time: u64) -> (r: Ray)
        ensures
            r == (Ray { time, ..self }),
    {
        Ray { origin: self.origin, direction: self.direction, time }
    }

    /// The point of the ray at a distance.
    pub fn at<F: Fn(Op, u64, u64) -> u64>(&self, t: u64, f: &F) -> (r: Point3)
        requires
            computes(*f),
        ensures
            r == along(*f, self.origin, self.direction, t),
    {
        go_along(&self.origin, &self.direction, t, f)
    }
}

} // verus!
