//! Polygon meshes: vertices in single precision, triangles as index triples.

use crate::accel::bvh;
use crate::accel::bvh::{Aabb, Bvh};
use crate::arith::{computes, Op};
use crate::double;
use crate::math::Vec3;
use vstd::prelude::*;

verus! {

/// A point or vector in single precision, by the bits of its components.
#[derive(Clone, Copy, Debug, PartialEq, Eq, Structural)]
pub struct Single3 {
    pub x: u32,
    pub y: u32,
    pub z: u32,
}

/// A surface parameter pair in single precision, by the bits of its components.
#[derive(Clone, Copy, Debug, PartialEq, Eq, Structural)]
pub struct Single2 {
    pub s: u32,
    pub t: u32,
}

/// The triple of singles nearest to the doubles at index `i` of a flat array.
pub open spec fn narrowed_triple(v: Seq<u64>, i: int) -> Single3 {
    Single3 {
        x: double::narrowed(v[3 * i]),
        y: double::narrowed(v[3 * i + 1]),
        z: double::narrowed(v[3 * i + 2]),
    }
}

/// The whole triples of a flat array, in single precision.
pub open spec fn narrowed_triples(v: Seq<u64>) -> Seq<Single3> {
    Seq::new((v.len() / 3) as nat, |i: int| narrowed_triple(v, i))
}

/// The whole pairs of a flat array, in single precision.
pub open spec fn narrowed_pairs(v: Seq<u64>) -> Seq<Single2> {
    Seq::new(
        (v.len() / 2) as nat,
        |i: int|
            Single2 { s: double::narrowed(v[2 * i]), t: double::narrowed(v[2 * i + 1]) },
    )
}

/// The whole triples of a flat array, in single precision.
pub fn narrow_triples(v: &[u64]) -> (r: Vec<Single3>)
    ensures
        r@ == narrowed_triples(v@),
{
    let mut out: Vec<Single3> = Vec::new();
    let mut i: usize = 0;
    while i < v.len() / 3
        invariant
            i <= v@.len() / 3,
            out@.len() == i,
            forall|k: int| 0 <= k < i ==> out@[k] == narrowed_triple(v@, k),
        decreases v@.len() / 3 - i,
    {
        out.push(
            Single3 {
                x: double::narrow(v[3 * i]),
                y: double::narrow(v[3 * i + 1]),
                z: double::narrow(v[3 * i + 2]),
            },
        );
        i += 1;
    }
    assert(out@ =~= narrowed_triples(v@));
    out
}

/// The whole pairs of a flat array, in single precision.
pub fn narrow_pairs(v: &[u64]) -> (r: Vec<Single2>)
    ensures
        r@ == narrowed_pairs(v@),
{
    let mut out: Vec<Single2> = Vec::new();
    let mut i: usize = 0;
    while i < v.len() / 2
        invariant
            i <= v@.len() / 2,
            out@.len() == i,
            forall|k: int| 0 <= k < i ==> out@[k] == narrowed_pairs(v@)[k],
        decreases v@.len() / 2 - i,
    {
        out.push(Single2 { s: double::narrow(v[2 * i]), t: double::narrow(v[2 * i + 1]) });
        i += 1;
    }
    assert(out@ =~= narrowed_pairs(v@));
    out
}

/// A triangle mesh before its acceleration structure is built.
#[derive(Debug)]
pub struct PolygonMesh {
    pub positions: Vec<Single3>,
    /// Three vertex indices per triangle.
    pub indices: Vec<u32>,
    /// One per vertex.
    pub normals: Option<Vec<Single3>>,
    /// One per vertex.
    pub st: Option<Vec<Single2>>,
    /// Positions at shutter close, for a deforming mesh.
    pub positions1: Option<Vec<Single3>>,
}

/// What a polygon mesh is.
pub struct PolygonMeshView {
    pub positions: Seq<Single3>,
    pub indices: Seq<u32>,
    pub normals: Option<Seq<Single3>>,
    pub st: Option<Seq<Single2>>,
    pub positions1: Option<Seq<Single3>>,
}

/// The elements of an optional vector.
pub open spec fn opt_view<T>(v: Option<Vec<T>>) -> Option<Seq<T>> {
    match v {
        Some(v) => Some(v@),
        None => None,
    }
}

impl View for PolygonMesh {
    type V = PolygonMeshView;

    open spec fn view(&self) -> PolygonMeshView {
        PolygonMeshView {
            positions: self.positions@,
            indices: self.indices@,
            normals: opt_view(self.normals),
            st: opt_view(self.st),
            positions1: opt_view(self.positions1),
        }
    }
}

impl PolygonMesh {
    /// The number of triangles.
    pub fn triangle_count(&self) -> (r: usize)
        ensures
            r == self@.indices.len() / 3,
    {
        self.indices.len() / 3
    }
}

/// The fan of triangles that covers a polygon: its first vertex with each of its
/// other edges in turn.
pub open spec fn fan(ring: Seq<u32>) -> Seq<u32> {
    Seq::new(
        if ring.len() >= 3 { (3 * (ring.len() - 2)) as nat } else { 0 },
        |k: int| if k % 3 == 0 { ring[0] } else { ring[k / 3 + k % 3] },
    )
}

/// Appends the fan of triangles that covers a polygon.
pub fn push_fan(indices: &mut Vec<u32>, ring: &[u32])
    ensures
        final(indices)@ == old(indices)@ + fan(ring@),
{
    let ghost start = indices@;
    if ring.len() < 3 {
        assert(indices@ =~= start + fan(ring@));
        return;
    }
    let mut i: usize = 1;
    assert(start + fan(ring@).subrange(0, 0) =~= start);
    while i < ring.len() - 1
        invariant
            1 <= i <= ring@.len() - 1,
            ring@.len() >= 3,
            indices@ == start + fan(ring@).subrange(0, 3 * (i - 1)),
        decreases ring@.len() - i,
    {
        indices.push(ring[0]);
        indices.push(ring[i]);
        indices.push(ring[i + 1]);
        proof {
            let k = 3 * (i - 1);
            let f = fan(ring@);
            assert(f[k] == ring@[0]);
            assert(f[k + 1] == ring@[i as int]);
            assert(f[k + 2] == ring@[i + 1]);
            assert(indices@ =~= start + f.subrange(0, 3 * i as int));
        }
        i += 1;
    }
    assert(fan(ring@).subrange(0, 3 * (i - 1)) =~= fan(ring@));
}

/// A point in double precision.
pub open spec fn widened3(p: Single3) -> Vec3 {
    Vec3::of(double::widened(p.x), double::widened(p.y), double::widened(p.z))
}

/// A point in double precision.
fn widen3(p: Single3) -> (r: Vec3)
    ensures
        r == widened3(p),
{
    Vec3::new(double::widen(p.x), double::widen(p.y), double::widen(p.z))
}

/// The corners of a triangle.
pub open spec fn corners(positions: Seq<Single3>, indices: Seq<u32>, tri: int) -> Seq<Vec3> {
    seq![
        widened3(positions[indices[3 * tri] as int]),
        widened3(positions[indices[3 * tri + 1] as int]),
        widened3(positions[indices[3 * tri + 2] as int]),
    ]
}

/// The box around a triangle, and around where it ends up when it moves.
pub open spec fn triangle_box(
    positions: Seq<Single3>,
    indices: Seq<u32>,
    positions1: Option<Seq<Single3>>,
    tri: int,
) -> Aabb {
    let b = bvh::box_around(corners(positions, indices, tri));
    match positions1 {
        Some(p) => {
            let c = bvh::box_around(corners(p, indices, tri));
            bvh::grown(bvh::grown(b, c.min), c.max)
        },
        None => b,
    }
}

/// The boxes around the triangles.
pub open spec fn triangle_boxes(
    positions: Seq<Single3>,
    indices: Seq<u32>,
    positions1: Option<Seq<Single3>>,
) -> Seq<Aabb> {
    Seq::new(
        (indices.len() / 3) as nat,
        |t: int| triangle_box(positions, indices, positions1, t),
    )
}

/// The box around boxes.
pub open spec fn box_of_boxes(boxes: Seq<Aabb>) -> Aabb
    decreases boxes.len(),
{
    if boxes.len() == 0 {
        bvh::box_around(seq![])
    } else {
        let b = boxes.last();
        bvh::grown(bvh::grown(box_of_boxes(boxes.drop_last()), b.min), b.max)
    }
}

/// The box around boxes covers each of them.
pub proof fn box_of_boxes_covers(boxes: Seq<Aabb>, i: int)
    requires
        0 <= i < boxes.len(),
    ensures
        bvh::covers(box_of_boxes(boxes), boxes[i]),
    decreases boxes.len(),
{
    let before = box_of_boxes(boxes.drop_last());
    let b = boxes.last();
    let g = bvh::grown(before, b.min);
    let c = boxes[i];
    if i < boxes.len() - 1 {
        box_of_boxes_covers(boxes.drop_last(), i);
        assert(boxes.drop_last()[i] == c);
        bvh::grown_holds(before, b.min, c.min);
        bvh::grown_holds(before, b.min, c.max);
    }
    bvh::grown_holds(before, b.min, b.min);
    bvh::grown_holds(g, b.max, c.min);
    bvh::grown_holds(g, b.max, c.max);
}

/// The box around boxes.
pub fn join_boxes(boxes: &Vec<Aabb>) -> (r: Aabb)
    ensures
        r == box_of_boxes(boxes@),
{
    let n: usize = boxes.len();
    let mut b: Aabb = Aabb::empty();
    let mut i: usize = 0;
    assert(boxes@.take(0).len() == 0);
    assert(bvh::box_around(Seq::<Vec3>::empty()) == b);
    while i < n
        invariant
            i <= n == boxes@.len(),
            b == box_of_boxes(boxes@.take(i as int)),
        decreases n - i,
    {
        b.grow(&boxes[i]);
        proof {
            assert(boxes@.take(i + 1).drop_last() =~= boxes@.take(i as int));
            assert(boxes@.take(i + 1).last() == boxes@[i as int]);
        }
        i += 1;
    }
    assert(boxes@.take(n as int) =~= boxes@);
    b
}

/// The box around one triangle.
fn box_triangle(positions: &Vec<Single3>, indices: &Vec<u32>, tri: usize) -> (r: Aabb)
    requires
        3 * tri + 3 <= indices@.len(),
        forall|k: int| 0 <= k < indices@.len() ==> #[trigger] indices@[k] < positions@.len(),
    ensures
        r == bvh::box_around(corners(positions@, indices@, tri as int)),
{
    let n: usize = indices.len();
    let at: usize = 3 * tri;
    let mut points: Vec<Vec3> = Vec::new();
    points.push(widen3(positions[indices[at] as usize]));
    points.push(widen3(positions[indices[at + 1] as usize]));
    points.push(widen3(positions[indices[at + 2] as usize]));
    assert(points@ =~= corners(positions@, indices@, tri as int));
    Aabb::from_points(&points)
}

/// A triangle mesh with its hierarchy.
pub struct Mesh {
    pub shape: PolygonMesh,
    pub blas: Bvh,
    pub local_bounds: Aabb,
}

/// The positions at shutter close, where there is one for each vertex.
pub open spec fn kept_motion(
    positions: Seq<Single3>,
    positions1: Option<Seq<Single3>>,
) -> Option<Seq<Single3>> {
    match positions1 {
        Some(p) if p.len() == positions.len() => Some(p),
        _ => None,
    }
}

impl PolygonMesh {
    /// Whether every index names a vertex.
    pub open spec fn is_indexed(&self) -> bool {
        forall|k: int|
            0 <= k < self.indices@.len() ==> #[trigger] self.indices@[k] < self.positions@.len()
    }

    /// The boxes around the triangles, which cover both ends of a motion.
    pub fn bounds(&self) -> (r: Vec<Aabb>)
        requires
            self.is_indexed(),
        ensures
            r@ == triangle_boxes(
                self@.positions,
                self@.indices,
                kept_motion(self@.positions, self@.positions1),
            ),
    {
        let moving: bool = match &self.positions1 {
            Some(p) => p.len() == self.positions.len(),
            None => false,
        };
        let ghost p1 = kept_motion(self@.positions, self@.positions1);
        let ghost all = triangle_boxes(self@.positions, self@.indices, p1);
        let n: usize = self.indices.len() / 3;
        let mut boxes: Vec<Aabb> = Vec::new();
        let mut t: usize = 0;
        while t < n
            invariant
                t <= n == self.indices@.len() / 3,
                boxes@ == all.take(t as int),
                p1 == kept_motion(self@.positions, self@.positions1),
                moving == (p1 is Some),
                all == triangle_boxes(self@.positions, self@.indices, p1),
                self.is_indexed(),
            decreases n - t,
        {
            let mut b: Aabb = box_triangle(&self.positions, &self.indices, t);
            if moving {
                match &self.positions1 {
                    Some(p) => {
                        let other: Aabb = box_triangle(p, &self.indices, t);
                        b.grow(&other);
                    },
                    None => {},
                }
            }
            assert(b == all[t as int]);
            assert(all.take(t + 1) =~= all.take(t as int).push(b));
            boxes.push(b);
            t += 1;
        }
        assert(all.take(n as int) =~= all);
        boxes
    }
}

impl Mesh {
    /// A mesh with its hierarchy. Positions at shutter close are dropped where there is
    /// not one for each vertex; else the boxes cover both ends of the motion.
    pub fn with_motion<F: Fn(Op, u64, u64) -> u64>(shape: PolygonMesh, f: &F) -> (r: Mesh)
        requires
            shape.is_indexed(),
            shape.indices@.len() / 3 <= 0x7fff_ffff,
            computes(*f),
        ensures
            ({
                let p1 = kept_motion(shape@.positions, shape@.positions1);
                let boxes = triangle_boxes(shape@.positions, shape@.indices, p1);
                &&& r.shape@ == (PolygonMeshView { positions1: p1, ..shape@ })
                &&& r.local_bounds == box_of_boxes(boxes)
                &&& r.blas@ == bvh::hierarchy_over(boxes, *f)
                &&& bvh::is_hierarchy(r.blas@, boxes)
            }),
    {
        let boxes: Vec<Aabb> = shape.bounds();
        let local_bounds: Aabb = join_boxes(&boxes);
        let blas: Bvh = Bvh::build(&boxes, f);
        let PolygonMesh { positions, indices, normals, st, positions1 } = shape;
        let kept: Option<Vec<Single3>> = match positions1 {
            Some(p) => if p.len() == positions.len() {
                Some(p)
            } else {
                None
            },
            None => None,
        };
        Mesh {
            shape: PolygonMesh { positions, indices, normals, st, positions1: kept },
            blas,
            local_bounds,
        }
    }
}

/// A corner of a box: the upper end of an axis where its bit is set.
pub open spec fn box_corner(b: Aabb, i: int) -> Vec3 {
    Vec3::of(
        if i % 2 == 0 { b.min.x } else { b.max.x },
        if i / 2 % 2 == 0 { b.min.y } else { b.max.y },
        if i / 4 % 2 == 0 { b.min.z } else { b.max.z },
    )
}

/// The corners of a box, to be placed by a transform; the box around the placed ones,
/// at both ends of a motion, holds an instance.
pub fn box_corners(b: &Aabb) -> (r: Vec<Vec3>)
    ensures
        r@ == Seq::new(8, |i: int| box_corner(*b, i)),
{
    let mut out: Vec<Vec3> = Vec::new();
    let mut i: u8 = 0;
    while i < 8
        invariant
            i <= 8,
            out@.len() == i,
            forall|k: int| 0 <= k < i ==> #[trigger] out@[k] == box_corner(*b, k),
        decreases 8 - i,
    {
        out.push(
            Vec3::new(
                if i % 2 == 0 {
                    b.min.x
                } else {
                    b.max.x
                },
                if i / 2 % 2 == 0 {
                    b.min.y
                } else {
                    b.max.y
                },
                if i / 4 % 2 == 0 {
                    b.min.z
                } else {
                    b.max.z
                },
            ),
        );
        i += 1;
    }
    assert(out@ =~= Seq::new(8, |i: int| box_corner(*b, i)));
    out
}

} // verus!
