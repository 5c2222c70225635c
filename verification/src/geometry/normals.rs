//! Vertex normals: the sums of what the triangles around a vertex have, made units.

use crate::arith;
use crate::arith::{
    add_vectors, computes, cross_vectors, divide_vector, measure_vector, subtract_vectors, Op, TINY,
};
use crate::double;
use crate::geometry::mesh::Single3;
use crate::math::{Vec3, ZERO};
use vstd::prelude::*;

verus! {

/// A triple of singles in double precision.
pub open spec fn widened_triple(s: Single3) -> Vec3 {
    Vec3::of(double::widened(s.x), double::widened(s.y), double::widened(s.z))
}

/// A triple of doubles in single precision.
pub open spec fn single_triple(v: Vec3) -> Single3 {
    Single3 { x: double::narrowed(v.x), y: double::narrowed(v.y), z: double::narrowed(v.z) }
}

pub fn widen_triple(s: Single3) -> (r: Vec3)
    ensures
        r == widened_triple(s),
{
    Vec3::new(double::widen(s.x), double::widen(s.y), double::widen(s.z))
}

pub fn narrow_triple(v: Vec3) -> (r: Single3)
    ensures
        r == single_triple(v),
{
    Single3 { x: double::narrow(v.x), y: double::narrow(v.y), z: double::narrow(v.z) }
}

/// Whether whole triangles name vertices that there are.
pub open spec fn names_vertices(indices: Seq<u32>, n: int) -> bool {
    forall|i: int| 0 <= i < 3 * (indices.len() / 3) ==> (#[trigger] indices[i]) < n
}

/// What a triangle adds to the normals of its corners: at right angles to it, and as long
/// as twice its area.
pub open spec fn face_normal<F: Fn(Op, u64, u64) -> u64>(
    f: F,
    positions: Seq<Single3>,
    indices: Seq<u32>,
    tri: int,
) -> Vec3 {
    let a = widened_triple(positions[indices[3 * tri] as int]);
    let b = widened_triple(positions[indices[3 * tri + 1] as int]);
    let c = widened_triple(positions[indices[3 * tri + 2] as int]);
    arith::cross_product(f, arith::vector_difference(f, b, a), arith::vector_difference(f, c, a))
}

/// What the first `m` corners add up to at vertex `v`.
pub open spec fn vertex_sum<F: Fn(Op, u64, u64) -> u64>(
    f: F,
    positions: Seq<Single3>,
    indices: Seq<u32>,
    v: int,
    m: int,
) -> Vec3
    decreases m,
{
    if m <= 0 {
        Vec3::of(ZERO, ZERO, ZERO)
    } else {
        let before = vertex_sum(f, positions, indices, v, m - 1);
        if indices[m - 1] == v {
            arith::vector_sum(f, before, face_normal(f, positions, indices, (m - 1) / 3))
        } else {
            before
        }
    }
}

/// A vector over its length, in single precision; a length below 1e-12 counts as that.
pub open spec fn unit<F: Fn(Op, u64, u64) -> u64>(f: F, n: Vec3) -> Single3 {
    let len = arith::vector_length(f, n);
    single_triple(
        arith::vector_part(
            f,
            n,
            if double::below(TINY, len) {
                len
            } else {
                TINY
            },
        ),
    )
}

/// The normals of all vertices.
pub open spec fn vertex_normals<F: Fn(Op, u64, u64) -> u64>(
    f: F,
    positions: Seq<Single3>,
    indices: Seq<u32>,
) -> Seq<Single3> {
    let m = 3 * (indices.len() / 3) as int;
    Seq::new(positions.len(), |v: int| unit(f, vertex_sum(f, positions, indices, v, m)))
}

fn make_unit<F: Fn(Op, u64, u64) -> u64>(f: &F, n: Vec3) -> (r: Single3)
    requires
        computes(*f),
    ensures
        r == unit(*f, n),
{
    let len: u64 = measure_vector(f, n);
    let d: u64 = if double::less(TINY, len) {
        len
    } else {
        TINY
    };
    narrow_triple(divide_vector(f, n, d))
}

/// Smooth normals of a triangle mesh, weighed by the areas of the triangles.
pub fn smooth_normals<F: Fn(Op, u64, u64) -> u64>(
    positions: &Vec<Single3>,
    indices: &Vec<u32>,
    f: &F,
) -> (r: Vec<Single3>)
    requires
        names_vertices(indices@, positions@.len() as int),
        computes(*f),
    ensures
        r@ == vertex_normals(*f, positions@, indices@),
{
    let n: usize = positions.len();
    let total: usize = indices.len();
    let tris: usize = total / 3;
    let mut acc: Vec<Vec3> = Vec::new();
    let mut v: usize = 0;
    while v < n
        invariant
            v <= n,
            acc@.len() == v,
            forall|k: int| 0 <= k < v ==> #[trigger] acc@[k] == Vec3::of(ZERO, ZERO, ZERO),
        decreases n - v,
    {
        acc.push(Vec3::zero());
        v += 1;
    }
    let mut k: usize = 0;
    while k < tris
        invariant
            k <= tris,
            tris == total / 3,
            total == indices@.len(),
            n == positions@.len() == acc@.len(),
            names_vertices(indices@, n as int),
            computes(*f),
            forall|v: int|
                0 <= v < n ==> #[trigger] acc@[v] == vertex_sum(
                    *f,
                    positions@,
                    indices@,
                    v,
                    3 * k,
                ),
        decreases tris - k,
    {
        let ghost m = 3 * (indices@.len() / 3) as int;
        assert(3 * k + 2 < m);
        let i: usize = indices[3 * k] as usize;
        let j: usize = indices[3 * k + 1] as usize;
        let l: usize = indices[3 * k + 2] as usize;
        assert(i < n && j < n && l < n);
        let a: Vec3 = widen_triple(positions[i]);
        let e1: Vec3 = subtract_vectors(f, widen_triple(positions[j]), a);
        let e2: Vec3 = subtract_vectors(f, widen_triple(positions[l]), a);
        let face: Vec3 = cross_vectors(f, e1, e2);
        assert(face == face_normal(*f, positions@, indices@, k as int));
        let mut c: usize = 0;
        while c < 3
            invariant
                c <= 3,
                k < tris,
                tris == total / 3,
                total == indices@.len(),
                n == positions@.len() == acc@.len(),
                names_vertices(indices@, n as int),
                computes(*f),
                face == face_normal(*f, positions@, indices@, k as int),
                forall|v: int|
                    0 <= v < n ==> #[trigger] acc@[v] == vertex_sum(
                        *f,
                        positions@,
                        indices@,
                        v,
                        3 * k + c,
                    ),
            decreases 3 - c,
        {
            let at: usize = indices[3 * k + c] as usize;
            assert(at < n);
            let before: Vec3 = acc[at];
            acc[at] = add_vectors(f, before, face);
            assert((3 * k + c) / 3 == k);
            assert forall|v: int| 0 <= v < n implies #[trigger] acc@[v] == vertex_sum(
                *f,
                positions@,
                indices@,
                v,
                3 * k + c + 1,
            ) by {
                assert(indices@[3 * k + c] == at);
            }
            c += 1;
        }
        k += 1;
    }
    let mut out: Vec<Single3> = Vec::new();
    let mut v: usize = 0;
    while v < n
        invariant
            v <= n == acc@.len(),
            n == positions@.len(),
            tris == total / 3,
            total == indices@.len(),
            computes(*f),
            forall|v: int|
                0 <= v < n ==> #[trigger] acc@[v] == vertex_sum(
                    *f,
                    positions@,
                    indices@,
                    v,
                    3 * tris,
                ),
            out@.len() == v,
            forall|k: int| 0 <= k < v ==> #[trigger] out@[k] == unit(*f, acc@[k]),
        decreases n - v,
    {
        out.push(make_unit(f, acc[v]));
        v += 1;
    }
    assert(out@ =~= vertex_normals(*f, positions@, indices@));
    out
}

// ---- laws ------------------------------------------------------------------

/// A vertex has what the triangles around it have, and nothing of the others: one that no
/// triangle names has no direction.
pub proof fn unnamed_vertices_have_none<F: Fn(Op, u64, u64) -> u64>(
    f: F,
    positions: Seq<Single3>,
    indices: Seq<u32>,
    v: int,
    m: int,
)
    requires
        forall|i: int| 0 <= i < m ==> #[trigger] indices[i] != v,
    ensures
        vertex_sum(f, positions, indices, v, m) == Vec3::of(ZERO, ZERO, ZERO),
    decreases m,
{
    if m > 0 {
        assert(indices[m - 1] != v);
        unnamed_vertices_have_none(f, positions, indices, v, m - 1);
    }
}

} // verus!
