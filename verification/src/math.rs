//! Vectors and colours, by the bits of their components.

use vstd::prelude::*;

pub mod matrix;
pub mod matrix_laws;
pub mod point;

pub use self::matrix::Matrix4;
pub use self::point::Point3;

verus! {

/// Bits of 0, 1/2, -1/2, 1 and -1.
pub const ZERO: u64 = 0;

pub const HALF: u64 = 0x3fe0_0000_0000_0000;

pub const MINUS_HALF: u64 = 0xbfe0_0000_0000_0000;

pub const ONE: u64 = 0x3ff0_0000_0000_0000;

/// 2, 3, 4 and 360.
pub const TWO: u64 = 0x4000_0000_0000_0000;

pub const THREE: u64 = 0x4008_0000_0000_0000;

pub const FOUR: u64 = 0x4010_0000_0000_0000;

pub const FULL_CIRCLE: u64 = 0x4076_8000_0000_0000;

/// 1e-6: what is no farther away is the same place.
pub const EPSILON: u64 = 0x3eb0_c6f7_a0b5_ed8d;

/// A point, vector or colour.
#[derive(Clone, Copy, Debug, PartialEq, Eq, Structural)]
pub struct Vec3 {
    pub x: u64,
    pub y: u64,
    pub z: u64,
}

impl Vec3 {
    /// The components in order.
    pub open spec fn of(x: u64, y: u64, z: u64) -> Vec3 {
        Vec3 { x, y, z }
    }

    /// The vector with these components.
    pub fn new(x: u64, y: u64, z: u64) -> (r: Vec3)
        ensures
            r == Vec3::of(x, y, z),
    {
        Vec3 { x, y, z }
    }

    /// All zeros: the origin, black.
    pub fn zero() -> (r: Vec3)
        ensures
            r == Vec3::of(ZERO, ZERO, ZERO),
    {
        Vec3 { x: ZERO, y: ZERO, z: ZERO }
    }

    /// All ones: white.
    pub fn one() -> (r: Vec3)
        ensures
            r == Vec3::of(ONE, ONE, ONE),
    {
        Vec3 { x: ONE, y: ONE, z: ONE }
    }
}

/// The first three numbers of `v`.
pub open spec fn first_three(v: Seq<u64>) -> Option<Vec3> {
    if v.len() >= 3 {
        Some(Vec3::of(v[0], v[1], v[2]))
    } else {
        None
    }
}

/// The first three numbers of `v`, where there are as many.
pub fn vec3_from(v: &[u64]) -> (r: Option<Vec3>)
    ensures
        r == first_three(v@),
{
    if v.len() >= 3 {
        Some(Vec3::new(v[0], v[1], v[2]))
    } else {
        None
    }
}

/// The triple at index `i` of a flat array of triples.
pub open spec fn triple(v: Seq<u64>, i: int) -> Vec3 {
    Vec3::of(v[3 * i], v[3 * i + 1], v[3 * i + 2])
}

/// The whole triples of a flat array; a rest of one or two numbers is left out.
pub open spec fn triples(v: Seq<u64>) -> Seq<Vec3> {
    Seq::new((v.len() / 3) as nat, |i: int| triple(v, i))
}

/// The whole triples of a flat array.
pub fn to_triples(v: &[u64]) -> (r: Vec<Vec3>)
    ensures
        r@ == triples(v@),
{
    let mut out: Vec<Vec3> = Vec::new();
    let mut i: usize = 0;
    while i < v.len() / 3
        invariant
            i <= v@.len() / 3,
            out@.len() == i,
            forall|k: int| 0 <= k < i ==> out@[k] == triple(v@, k),
        decreases v@.len() / 3 - i,
    {
        out.push(Vec3::new(v[3 * i], v[3 * i + 1], v[3 * i + 2]));
        i += 1;
    }
    assert(out@ =~= triples(v@));
    out
}

} // verus!
