//! Arithmetic on doubles that a caller supplies. The operations are named; what is
//! computed with them is stated over their results.

use crate::double;
use crate::math::{Vec3, ZERO};
use vstd::prelude::*;

verus! {

/// An operation on doubles; those of one number leave the second aside.
#[derive(Clone, Copy, Debug, PartialEq, Eq, Structural)]
pub enum Op {
    Plus,
    Minus,
    Times,
    Over,
    /// The square root.
    Root,
    /// The largest whole number that is not above.
    Floor,
    CubeRoot,
    /// The degrees, from -180 to 180, of the direction whose height is the first number and
    /// whose width is the second.
    Degrees,
    /// Degrees in radians.
    Radians,
    Sine,
    Cosine,
    Tangent,
    ArcTangent,
    Exponential,
    /// The natural logarithm.
    Logarithm,
    /// The first number to the power of the whole number that the second is.
    Power,
    /// The first number to the power of the second.
    RealPower,
}

/// 1e-12
pub const TINY: u64 = 0x3d71_9799_812d_ea11;

/// The result of an operation.
#[verifier::opaque]
pub open spec fn value<F: Fn(Op, u64, u64) -> u64>(f: F, op: Op, a: u64, b: u64) -> u64 {
    choose|r: u64| f.ensures((op, a, b), r)
}

/// Every operation has one result.
pub open spec fn computes<F: Fn(Op, u64, u64) -> u64>(f: F) -> bool {
    &&& forall|op: Op, a: u64, b: u64| #[trigger] f.requires((op, a, b))
    &&& forall|op: Op, a: u64, b: u64, r: u64, s: u64| #[trigger]
        f.ensures((op, a, b), r) && #[trigger] f.ensures((op, a, b), s) ==> r == s
}

/// The result of an operation.
pub fn compute<F: Fn(Op, u64, u64) -> u64>(f: &F, op: Op, a: u64, b: u64) -> (r: u64)
    requires
        computes(*f),
    ensures
        r == value(*f, op, a, b),
{
    let r: u64 = f(op, a, b);
    proof {
        reveal(value);
    }
    r
}

/// Whatever an operation gives is its result.
pub proof fn what_it_gives<F: Fn(Op, u64, u64) -> u64>(f: F, op: Op, a: u64, b: u64, r: u64)
    requires
        computes(f),
        f.ensures((op, a, b), r),
    ensures
        value(f, op, a, b) == r,
{
    reveal(value);
}

/// The sum.
pub open spec fn sum<F: Fn(Op, u64, u64) -> u64>(f: F, a: u64, b: u64) -> u64 {
    value(f, Op::Plus, a, b)
}

/// The difference.
pub open spec fn difference<F: Fn(Op, u64, u64) -> u64>(f: F, a: u64, b: u64) -> u64 {
    value(f, Op::Minus, a, b)
}

/// The product.
pub open spec fn product<F: Fn(Op, u64, u64) -> u64>(f: F, a: u64, b: u64) -> u64 {
    value(f, Op::Times, a, b)
}

/// The quotient.
pub open spec fn quotient<F: Fn(Op, u64, u64) -> u64>(f: F, a: u64, b: u64) -> u64 {
    value(f, Op::Over, a, b)
}

pub fn plus<F: Fn(Op, u64, u64) -> u64>(f: &F, a: u64, b: u64) -> (r: u64)
    requires
        computes(*f),
    ensures
        r == sum(*f, a, b),
{
    compute(f, Op::Plus, a, b)
}

pub fn minus<F: Fn(Op, u64, u64) -> u64>(f: &F, a: u64, b: u64) -> (r: u64)
    requires
        computes(*f),
    ensures
        r == difference(*f, a, b),
{
    compute(f, Op::Minus, a, b)
}

pub fn times<F: Fn(Op, u64, u64) -> u64>(f: &F, a: u64, b: u64) -> (r: u64)
    requires
        computes(*f),
    ensures
        r == product(*f, a, b),
{
    compute(f, Op::Times, a, b)
}

pub fn over<F: Fn(Op, u64, u64) -> u64>(f: &F, a: u64, b: u64) -> (r: u64)
    requires
        computes(*f),
    ensures
        r == quotient(*f, a, b),
{
    compute(f, Op::Over, a, b)
}

/// The most that is counted: beyond it not every whole number is a double.
pub const MOST_COUNTED: u64 = 0x1f_ffff_ffff_ffff;

/// A count as a double.
pub open spec fn counted(n: int) -> u64 {
    double::dyadic(
        if n > MOST_COUNTED {
            MOST_COUNTED as int
        } else {
            n
        },
        0,
    )
}

/// A count as a double.
pub fn count(n: usize) -> (r: u64)
    ensures
        r == counted(n as int),
{
    if n as u64 > MOST_COUNTED {
        double::dyadic_double(0x1f_ffff_ffff_ffff, 0)
    } else {
        double::dyadic_double(n as i64, 0)
    }
}

// ---- vectors ---------------------------------------------------------------

/// The sum of two vectors.
pub open spec fn vector_sum<F: Fn(Op, u64, u64) -> u64>(f: F, a: Vec3, b: Vec3) -> Vec3 {
    Vec3::of(sum(f, a.x, b.x), sum(f, a.y, b.y), sum(f, a.z, b.z))
}

/// The difference of two vectors.
pub open spec fn vector_difference<F: Fn(Op, u64, u64) -> u64>(f: F, a: Vec3, b: Vec3) -> Vec3 {
    Vec3::of(difference(f, a.x, b.x), difference(f, a.y, b.y), difference(f, a.z, b.z))
}

/// A multiple of a vector.
pub open spec fn vector_multiple<F: Fn(Op, u64, u64) -> u64>(f: F, a: Vec3, s: u64) -> Vec3 {
    Vec3::of(product(f, a.x, s), product(f, a.y, s), product(f, a.z, s))
}

/// A part of a vector.
pub open spec fn vector_part<F: Fn(Op, u64, u64) -> u64>(f: F, a: Vec3, s: u64) -> Vec3 {
    Vec3::of(quotient(f, a.x, s), quotient(f, a.y, s), quotient(f, a.z, s))
}

/// The product of two vectors that is at right angles to both.
pub open spec fn cross_product<F: Fn(Op, u64, u64) -> u64>(f: F, a: Vec3, b: Vec3) -> Vec3 {
    Vec3::of(
        difference(f, product(f, a.y, b.z), product(f, a.z, b.y)),
        difference(f, product(f, a.z, b.x), product(f, a.x, b.z)),
        difference(f, product(f, a.x, b.y), product(f, a.y, b.x)),
    )
}

/// The inner product of two vectors.
pub open spec fn dot_product<F: Fn(Op, u64, u64) -> u64>(f: F, a: Vec3, b: Vec3) -> u64 {
    sum(f, sum(f, product(f, a.x, b.x), product(f, a.y, b.y)), product(f, a.z, b.z))
}

/// The length of a vector.
pub open spec fn vector_length<F: Fn(Op, u64, u64) -> u64>(f: F, a: Vec3) -> u64 {
    value(f, Op::Root, dot_product(f, a, a), 0)
}

/// The vector of length one in the direction of a vector; a vector without a length stays
/// what it is.
pub open spec fn unit<F: Fn(Op, u64, u64) -> u64>(f: F, a: Vec3) -> Vec3 {
    let l = vector_length(f, a);
    if double::below(ZERO, l) {
        vector_part(f, a, l)
    } else {
        a
    }
}

pub fn add_vectors<F: Fn(Op, u64, u64) -> u64>(f: &F, a: Vec3, b: Vec3) -> (r: Vec3)
    requires
        computes(*f),
    ensures
        r == vector_sum(*f, a, b),
{
    Vec3::new(plus(f, a.x, b.x), plus(f, a.y, b.y), plus(f, a.z, b.z))
}

pub fn subtract_vectors<F: Fn(Op, u64, u64) -> u64>(f: &F, a: Vec3, b: Vec3) -> (r: Vec3)
    requires
        computes(*f),
    ensures
        r == vector_difference(*f, a, b),
{
    Vec3::new(minus(f, a.x, b.x), minus(f, a.y, b.y), minus(f, a.z, b.z))
}

pub fn multiply_vector<F: Fn(Op, u64, u64) -> u64>(f: &F, a: Vec3, s: u64) -> (r: Vec3)
    requires
        computes(*f),
    ensures
        r == vector_multiple(*f, a, s),
{
    Vec3::new(times(f, a.x, s), times(f, a.y, s), times(f, a.z, s))
}

pub fn divide_vector<F: Fn(Op, u64, u64) -> u64>(f: &F, a: Vec3, s: u64) -> (r: Vec3)
    requires
        computes(*f),
    ensures
        r == vector_part(*f, a, s),
{
    Vec3::new(over(f, a.x, s), over(f, a.y, s), over(f, a.z, s))
}

pub fn cross_vectors<F: Fn(Op, u64, u64) -> u64>(f: &F, a: Vec3, b: Vec3) -> (r: Vec3)
    requires
        computes(*f),
    ensures
        r == cross_product(*f, a, b),
{
    Vec3::new(
        minus(f, times(f, a.y, b.z), times(f, a.z, b.y)),
        minus(f, times(f, a.z, b.x), times(f, a.x, b.z)),
        minus(f, times(f, a.x, b.y), times(f, a.y, b.x)),
    )
}

pub fn measure_vector<F: Fn(Op, u64, u64) -> u64>(f: &F, a: Vec3) -> (r: u64)
    requires
        computes(*f),
    ensures
        r == vector_length(*f, a),
{
    compute(f, Op::Root, dot_vectors(f, a, a), 0)
}

pub fn dot_vectors<F: Fn(Op, u64, u64) -> u64>(f: &F, a: Vec3, b: Vec3) -> (r: u64)
    requires
        computes(*f),
    ensures
        r == dot_product(*f, a, b),
{
    plus(f, plus(f, times(f, a.x, b.x), times(f, a.y, b.y)), times(f, a.z, b.z))
}

pub fn normalize_vector<F: Fn(Op, u64, u64) -> u64>(f: &F, a: Vec3) -> (r: Vec3)
    requires
        computes(*f),
    ensures
        r == unit(*f, a),
{
    let l: u64 = measure_vector(f, a);
    if double::less(ZERO, l) {
        divide_vector(f, a, l)
    } else {
        a
    }
}

} // verus!
