//! Where rays meet surfaces.

use crate::arith;
use crate::arith::{computes, normalize_vector, Op};
use crate::math::{Point3, Vec3, ZERO};
use vstd::prelude::*;

verus! {

/// Where a ray meets a surface.
#[derive(Clone, Copy, Debug)]
pub struct Intersection {
    pub t: u64,
    pub point: Point3,
    pub normal: Vec3,
    pub material_id: usize,
    /// The ray came from outside a closed primitive. Primitives that turn their normal
    /// towards the viewer record this from the unturned one.
    pub front_face: bool,
    /// Surface parameters; zeros where the primitive has none.
    pub st: (u64, u64),
    /// Change of the parameters per unit of length, 0 where it is not known.
    pub st_density: u64,
    /// Tangent of a curve; zero for a surface.
    pub tangent: Vec3,
}

/// A hit on the outside of a surface without parameters.
pub open spec fn hit_at<F: Fn(Op, u64, u64) -> u64>(
    f: F,
    t: u64,
    point: Point3,
    normal: Vec3,
    material_id: usize,
) -> Intersection {
    Intersection {
        t,
        point,
        normal: arith::unit(f, normal),
        material_id,
        front_face: true,
        st: (ZERO, ZERO),
        st_density: ZERO,
        tangent: Vec3::of(ZERO, ZERO, ZERO),
    }
}

impl Intersection {
    /// A hit on the outside of a surface without parameters.
    pub fn new<F: Fn(Op, u64, u64) -> u64>(t: u64, point: Point3, normal: Vec3, material_id: usize, f: &F) -> (r:
        Intersection)
        requires
            computes(*f),
        ensures
            r == hit_at(*f, t, point, normal, material_id),
    {
        Intersection {
            t,
            point,
            normal: normalize_vector(f, normal),
            material_id,
            front_face: true,
            st: (ZERO, ZERO),
            st_density: ZERO,
            tangent: Vec3::zero(),
        }
    }

    pub fn with_front_face(self, front_face: bool) -> (r: Intersection)
        ensures
            r == (Intersection { front_face, ..self }),
    {
        let mut r: Intersection = self;
        r.front_face = front_face;
        r
    }

    pub fn with_st(self, st: (u64, u64), st_density: u64) -> (r: Intersection)
        ensures
            r == (Intersection { st, st_density, ..self }),
    {
        let mut r: Intersection = self;
        r.st = st;
        r.st_density = st_density;
        r
    }

    pub fn with_tangent(self, tangent: Vec3) -> (r: Intersection)
        ensures
            r == (Intersection { tangent, ..self }),
    {
        let mut r: Intersection = self;
        r.tangent = tangent;
        r
    }
}

} // verus!
