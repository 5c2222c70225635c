//! Points.

use crate::arith;
use crate::arith::{compute, computes, minus, plus, times, Op};
use crate::math::{Vec3, ZERO};
use vstd::prelude::*;

verus! {

/// A point, by the bits of its coordinates.
#[derive(Clone, Copy, Debug, PartialEq, Eq, Structural)]
pub struct Point3 {
    pub x: u64,
    pub y: u64,
    pub z: u64,
}

/// The square of the distance between two points.
pub open spec fn distance_squared<F: Fn(Op, u64, u64) -> u64>(f: F, a: Point3, b: Point3) -> u64 {
    let dx = arith::difference(f, a.x, b.x);
    let dy = arith::difference(f, a.y, b.y);
    let dz = arith::difference(f, a.z, b.z);
    arith::sum(
        f,
        arith::sum(f, arith::product(f, dx, dx), arith::product(f, dy, dy)),
        arith::product(f, dz, dz),
    )
}

/// The distance between two points.
pub open spec fn distance<F: Fn(Op, u64, u64) -> u64>(f: F, a: Point3, b: Point3) -> u64 {
    arith::value(f, Op::Root, distance_squared(f, a, b), 0)
}

/// A point moved by a vector.
pub open spec fn moved<F: Fn(Op, u64, u64) -> u64>(f: F, p: Point3, v: Vec3) -> Point3 {
    Point3::of(arith::sum(f, p.x, v.x), arith::sum(f, p.y, v.y), arith::sum(f, p.z, v.z))
}

/// A point moved back by a vector.
pub open spec fn moved_back<F: Fn(Op, u64, u64) -> u64>(f: F, p: Point3, v: Vec3) -> Point3 {
    Point3::of(
        arith::difference(f, p.x, v.x),
        arith::difference(f, p.y, v.y),
        arith::difference(f, p.z, v.z),
    )
}

/// The vector from `b` to `a`.
pub open spec fn between<F: Fn(Op, u64, u64) -> u64>(f: F, a: Point3, b: Point3) -> Vec3 {
    Vec3::of(
        arith::difference(f, a.x, b.x),
        arith::difference(f, a.y, b.y),
        arith::difference(f, a.z, b.z),
    )
}

impl Point3 {
    /// The coordinates in order.
    pub open spec fn of(x: u64, y: u64, z: u64) -> Point3 {
        Point3 { x, y, z }
    }

    pub fn new(x: u64, y: u64, z: u64) -> (r: Point3)
        ensures
            r == Point3::of(x, y, z),
    {
        Point3 { x, y, z }
    }

    pub fn origin() -> (r: Point3)
        ensures
            r == Point3::of(ZERO, ZERO, ZERO),
    {
        Point3 { x: ZERO, y: ZERO, z: ZERO }
    }

    pub fn distance<F: Fn(Op, u64, u64) -> u64>(&self, other: &Point3, f: &F) -> (r: u64)
        requires
            computes(*f),
        ensures
            r == distance(*f, *self, *other),
    {
        compute(f, Op::Root, self.distance_squared(other, f), 0)
    }

    pub fn distance_squared<F: Fn(Op, u64, u64) -> u64>(&self, other: &Point3, f: &F) -> (r: u64)
        requires
            computes(*f),
        ensures
            r == distance_squared(*f, *self, *other),
    {
        let dx: u64 = minus(f, self.x, other.x);
        let dy: u64 = minus(f, self.y, other.y);
        let dz: u64 = minus(f, self.z, other.z);
        plus(f, plus(f, times(f, dx, dx), times(f, dy, dy)), times(f, dz, dz))
    }

    /// The vector from the origin to the point.
    pub fn to_vec3(&self) -> (r: Vec3)
        ensures
            r == Vec3::of(self.x, self.y, self.z),
    {
        Vec3::new(self.x, self.y, self.z)
    }

    /// The point moved by a vector.
    pub fn step<F: Fn(Op, u64, u64) -> u64>(&self, v: &Vec3, f: &F) -> (r: Point3)
        requires
            computes(*f),
        ensures
            r == moved(*f, *self, *v),
    {
        Point3::new(plus(f, self.x, v.x), plus(f, self.y, v.y), plus(f, self.z, v.z))
    }

    /// The point moved back by a vector.
    pub fn step_back<F: Fn(Op, u64, u64) -> u64>(&self, v: &Vec3, f: &F) -> (r: Point3)
        requires
            computes(*f),
        ensures
            r == moved_back(*f, *self, *v),
    {
        Point3::new(minus(f, self.x, v.x), minus(f, self.y, v.y), minus(f, self.z, v.z))
    }

    /// The vector to the point from another.
    pub fn from_point<F: Fn(Op, u64, u64) -> u64>(&self, other: &Point3, f: &F) -> (r: Vec3)
        requires
            computes(*f),
        ensures
            r == between(*f, *self, *other),
    {
        Vec3::new(minus(f, self.x, other.x), minus(f, self.y, other.y), minus(f, self.z, other.z))
    }
}

} // verus!
