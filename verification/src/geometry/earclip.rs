//! Ear-clipping triangulation of general polygons: handles concave outlines and holes
//! (bridged into the outer loop). The polygon is projected onto its dominant plane;
//! loops after the first are holes.

use crate::arith;
use crate::arith::{computes, minus, plus, times, Op, TINY};
use crate::double;
use crate::geometry::mesh;
use crate::geometry::mesh::{PolygonMesh, PolygonMeshView, Single3};
use crate::geometry::normals;
use crate::geometry::normals::{narrow_triple, smooth_normals};
use crate::math::{Vec3, ZERO};
use vstd::prelude::*;

verus! {

/// A point in the plane, by the bits of its coordinates.
#[derive(Clone, Copy, Debug, PartialEq, Eq, Structural)]
pub struct Point2 {
    pub x: u64,
    pub y: u64,
}

/// The normal with one more edge of its loop.
pub open spec fn lifted<F: Fn(Op, u64, u64) -> u64>(f: F, n: Vec3, a: Vec3, b: Vec3) -> Vec3 {
    Vec3::of(
        arith::sum(
            f,
            n.x,
            arith::product(f, arith::difference(f, a.y, b.y), arith::sum(f, a.z, b.z)),
        ),
        arith::sum(
            f,
            n.y,
            arith::product(f, arith::difference(f, a.z, b.z), arith::sum(f, a.x, b.x)),
        ),
        arith::sum(
            f,
            n.z,
            arith::product(f, arith::difference(f, a.x, b.x), arith::sum(f, a.y, b.y)),
        ),
    )
}

/// Twice an area with one more edge of its loop.
pub open spec fn swept<F: Fn(Op, u64, u64) -> u64>(
    f: F,
    area: u64,
    a: Point2,
    b: Point2,
) -> u64 {
    arith::sum(
        f,
        area,
        arith::difference(f, arith::product(f, a.x, b.y), arith::product(f, b.x, a.y)),
    )
}

/// Twice the area of a triangle, positive where it turns left.
pub open spec fn crossed<F: Fn(Op, u64, u64) -> u64>(
    f: F,
    a: Point2,
    b: Point2,
    c: Point2,
) -> u64 {
    arith::difference(
        f,
        arith::product(f, arith::difference(f, b.x, a.x), arith::difference(f, c.y, a.y)),
        arith::product(f, arith::difference(f, b.y, a.y), arith::difference(f, c.x, a.x)),
    )
}

/// The squared distance of two points.
pub open spec fn apart<F: Fn(Op, u64, u64) -> u64>(f: F, a: Point2, b: Point2) -> u64 {
    let dx = arith::difference(f, a.x, b.x);
    let dy = arith::difference(f, a.y, b.y);
    arith::sum(f, arith::product(f, dx, dx), arith::product(f, dy, dy))
}

/// Whether two points are the same but for rounding.
pub open spec fn alike<F: Fn(Op, u64, u64) -> u64>(f: F, a: Point2, b: Point2) -> bool {
    double::below(double::magnitude(arith::difference(f, a.x, b.x)), TINY) && double::below(
        double::magnitude(arith::difference(f, a.y, b.y)),
        TINY,
    )
}

/// The point behind the one at `i` on a ring.
pub open spec fn next_on<T>(ring: Seq<T>, i: int) -> T {
    ring[if i + 1 < ring.len() {
        i + 1
    } else {
        0
    }]
}

/// The normal of a loop after its first `n` edges.
pub open spec fn loop_normal<F: Fn(Op, u64, u64) -> u64>(f: F, ring: Seq<Vec3>, n: int) -> Vec3
    decreases n,
{
    if n <= 0 {
        Vec3::of(ZERO, ZERO, ZERO)
    } else {
        lifted(f, loop_normal(f, ring, n - 1), ring[n - 1], next_on(ring, n - 1))
    }
}

/// The axis along which a normal is longest.
pub open spec fn dominant_axis(n: Vec3) -> u8 {
    let (x, y, z) = (double::magnitude(n.x), double::magnitude(n.y), double::magnitude(n.z));
    if double::at_most(y, x) && double::at_most(z, x) {
        0
    } else if double::at_most(z, y) {
        1
    } else {
        2
    }
}

/// A point seen along an axis.
pub open spec fn seen_along(p: Vec3, axis: u8) -> Point2 {
    if axis == 0 {
        Point2 { x: p.y, y: p.z }
    } else if axis == 1 {
        Point2 { x: p.z, y: p.x }
    } else {
        Point2 { x: p.x, y: p.y }
    }
}

/// A ring seen along an axis.
pub open spec fn projected(ring: Seq<Vec3>, axis: u8) -> Seq<Point2> {
    ring.map_values(|p: Vec3| seen_along(p, axis))
}

/// Twice the area that the first `n` edges sweep.
pub open spec fn loop_sweep<F: Fn(Op, u64, u64) -> u64>(
    f: F,
    ring: Seq<Point2>,
    n: int,
) -> u64
    decreases n,
{
    if n <= 0 {
        ZERO
    } else {
        swept(f, loop_sweep(f, ring, n - 1), ring[n - 1], next_on(ring, n - 1))
    }
}

/// The area of a ring, positive where it turns left.
pub open spec fn ring_area<F: Fn(Op, u64, u64) -> u64>(f: F, ring: Seq<Point2>) -> u64 {
    double::halved(loop_sweep(f, ring, ring.len() as int))
}

/// The last point that lies farthest right among the first `n`.
pub open spec fn rightmost(ring: Seq<Point2>, n: int) -> int
    decreases n,
{
    if n <= 1 {
        0
    } else {
        let best = rightmost(ring, n - 1);
        if double::below(ring[n - 1].x, ring[best].x) {
            best
        } else {
            n - 1
        }
    }
}

/// Whether one value is positive and the other negative.
pub open spec fn opposite(a: u64, b: u64) -> bool {
    (double::below(ZERO, a) && double::below(b, ZERO)) || (double::below(a, ZERO)
        && double::below(ZERO, b))
}

/// Whether two segments cross.
pub open spec fn segments_intersect<F: Fn(Op, u64, u64) -> u64>(
    f: F,
    a: Point2,
    b: Point2,
    c: Point2,
    d: Point2,
) -> bool {
    opposite(crossed(f, c, d, a), crossed(f, c, d, b)) && opposite(
        crossed(f, a, b, c),
        crossed(f, a, b, d),
    )
}

/// Whether a segment crosses an edge of a ring.
pub open spec fn crosses_ring<F: Fn(Op, u64, u64) -> u64>(
    f: F,
    a: Point2,
    b: Point2,
    ring: Seq<Point2>,
) -> bool {
    exists|i: int|
        0 <= i < ring.len() && segments_intersect(f, a, b, #[trigger] ring[i], next_on(ring, i))
}

/// Whether the ring's point at `i` can be joined to the hole's point at `h`.
pub open spec fn is_free<F: Fn(Op, u64, u64) -> u64>(
    f: F,
    ring: Seq<Point2>,
    hole: Seq<Point2>,
    i: int,
    h: int,
) -> bool {
    !crosses_ring(f, ring[i], hole[h], ring) && !crosses_ring(f, ring[i], hole[h], hole)
}

/// The nearest of the ring's first `n` points that the hole's point at `h` can be
/// joined to.
pub open spec fn bridge_to<F: Fn(Op, u64, u64) -> u64>(f: F, ring: Seq<Point2>, hole: Seq<Point2>, h: int, n: int) -> Option<int>
    decreases n,
{
    if n <= 0 {
        None
    } else {
        let before = bridge_to(f, ring, hole, h, n - 1);
        if !is_free(f, ring, hole, n - 1, h) {
            before
        } else {
            match before {
                None => Some(n - 1),
                Some(b) => if double::below(
                    apart(f, ring[n - 1], hole[h]),
                    apart(f, ring[b], hole[h]),
                ) {
                    Some(n - 1)
                } else {
                    Some(b)
                },
            }
        }
    }
}

/// A hole spliced into a ring: the ring up to the bridge, once around the hole and back,
/// and the ring from the bridge on.
pub open spec fn spliced<T>(ring: Seq<T>, hole: Seq<T>, bridge: int, h: int) -> Seq<T> {
    ring.take(bridge + 1) + hole.skip(h) + hole.take(h + 1) + ring.skip(bridge)
}

/// The ring, turned round where it turns the wrong way.
pub open spec fn oriented<F: Fn(Op, u64, u64) -> u64>(
    f: F,
    ring: Seq<Vec3>,
    axis: u8,
    left: bool,
) -> Seq<Vec3> {
    let area = ring_area(f, projected(ring, axis));
    if (left && double::below(area, ZERO)) || (!left && double::below(ZERO, area)) {
        ring.reverse()
    } else {
        ring
    }
}

/// The ring with one hole bridged in. A hole of fewer than three points is left out.
#[verifier::opaque]
pub open spec fn with_hole<F: Fn(Op, u64, u64) -> u64>(f: F, axis: u8, ring: Seq<Vec3>, hole: Seq<Vec3>) -> Option<Seq<Vec3>> {
    if hole.len() < 3 {
        Some(ring)
    } else {
        let turned = oriented(f, hole, axis, false);
        let flat = projected(turned, axis);
        let h = rightmost(flat, flat.len() as int);
        match bridge_to(f, projected(ring, axis), flat, h, ring.len() as int) {
            Some(b) => Some(spliced(ring, turned, b, h)),
            None => None,
        }
    }
}

/// The outline with the first `n - 1` holes bridged in.
pub open spec fn merged<F: Fn(Op, u64, u64) -> u64>(f: F, axis: u8, loops: Seq<Seq<Vec3>>, n: int) -> Option<Seq<Vec3>>
    decreases n,
{
    if n <= 1 {
        Some(oriented(f, loops[0], axis, true))
    } else {
        match merged(f, axis, loops, n - 1) {
            Some(ring) => with_hole(f, axis, ring, loops[n - 1]),
            None => None,
        }
    }
}

/// Whether a point lies in a triangle or on its rim.
pub open spec fn in_triangle<F: Fn(Op, u64, u64) -> u64>(
    f: F,
    p: Point2,
    a: Point2,
    b: Point2,
    c: Point2,
) -> bool {
    let (d1, d2, d3) = (crossed(f, p, a, b), crossed(f, p, b, c), crossed(f, p, c, a));
    let negative = double::below(d1, ZERO) || double::below(d2, ZERO) || double::below(d3, ZERO);
    let positive = double::below(ZERO, d1) || double::below(ZERO, d2) || double::below(ZERO, d3);
    !(negative && positive)
}

/// Whether a point keeps a corner from being cut off. A bridged ring holds points twice:
/// one that coincides with the triangle's does not.
pub open spec fn blocks<F: Fn(Op, u64, u64) -> u64>(f: F, p: Point2, a: Point2, b: Point2, c: Point2) -> bool {
    !alike(f, p, a) && !alike(f, p, b) && !alike(f, p, c) && in_triangle(f, p, a, b, c)
}

/// The corner before the one at `i`.
pub open spec fn before_on(rest: Seq<usize>, i: int) -> usize {
    rest[if i > 0 {
        i - 1
    } else {
        rest.len() - 1
    }]
}

/// Whether the corner at `i` of what is left of a ring can be cut off: it turns left, and
/// no other point stands in its way.
pub open spec fn is_ear<F: Fn(Op, u64, u64) -> u64>(f: F, ring: Seq<Point2>, rest: Seq<usize>, i: int) -> bool {
    let (ia, ib, ic) = (before_on(rest, i), rest[i], next_on(rest, i));
    let (a, b, c) = (ring[ia as int], ring[ib as int], ring[ic as int]);
    &&& !double::at_most(crossed(f, a, b, c), TINY)
    &&& forall|k: int|
        0 <= k < rest.len() && #[trigger] rest[k] != ia && rest[k] != ib && rest[k] != ic
            ==> !blocks(f, ring[rest[k] as int], a, b, c)
}

/// The first corner from `i` on that can be cut off.
pub open spec fn ear_from<F: Fn(Op, u64, u64) -> u64>(f: F, ring: Seq<Point2>, rest: Seq<usize>, i: int) -> Option<int>
    decreases rest.len() - i,
{
    if !(0 <= i < rest.len()) {
        None
    } else if is_ear(f, ring, rest, i) {
        Some(i)
    } else {
        ear_from(f, ring, rest, i + 1)
    }
}

/// The triangles of what is left of a ring: ears are cut off until three corners are
/// left, or none can be; then a fan covers the rest.
pub open spec fn clipped<F: Fn(Op, u64, u64) -> u64>(f: F, ring: Seq<Point2>, rest: Seq<usize>) -> Seq<u32>
    decreases rest.len(),
{
    let ear = ear_from(f, ring, rest, 0);
    if rest.len() > 3 && ear is Some && 0 <= ear->0 < rest.len() {
        let i = ear->0;
        seq![before_on(rest, i) as u32, rest[i] as u32, next_on(rest, i) as u32] + clipped(
            f,
            ring,
            rest.remove(i),
        )
    } else {
        mesh::fan(rest.map_values(|k: usize| k as u32))
    }
}

/// All corners of a ring.
pub open spec fn corners(n: nat) -> Seq<usize> {
    Seq::new(n, |i: int| i as usize)
}

/// The triangulation of loops: the merged ring and its triangles.
pub open spec fn triangulated<F: Fn(Op, u64, u64) -> u64>(f: F, loops: Seq<Seq<Vec3>>) -> Option<(Seq<Vec3>, Seq<u32>)> {
    let axis = dominant_axis(loop_normal(f, loops[0], loops[0].len() as int));
    match merged(f, axis, loops, loops.len() as int) {
        None => None,
        Some(ring) => if ring.len() < 3 {
            None
        } else {
            Some((ring, clipped(f, projected(ring, axis), corners(ring.len()))))
        },
    }
}

// ---- triangulating ---------------------------------------------------------

fn lift<F: Fn(Op, u64, u64) -> u64>(f: &F, n: Vec3, a: Vec3, b: Vec3) -> (r: Vec3)
    requires
        computes(*f),
    ensures
        r == lifted(*f, n, a, b),
{
    Vec3::new(
        plus(f, n.x, times(f, minus(f, a.y, b.y), plus(f, a.z, b.z))),
        plus(f, n.y, times(f, minus(f, a.z, b.z), plus(f, a.x, b.x))),
        plus(f, n.z, times(f, minus(f, a.x, b.x), plus(f, a.y, b.y))),
    )
}

fn sweep<F: Fn(Op, u64, u64) -> u64>(f: &F, area: u64, a: Point2, b: Point2) -> (r: u64)
    requires
        computes(*f),
    ensures
        r == swept(*f, area, a, b),
{
    plus(f, area, minus(f, times(f, a.x, b.y), times(f, b.x, a.y)))
}

fn ask_cross<F: Fn(Op, u64, u64) -> u64>(f: &F, a: Point2, b: Point2, c: Point2) -> (r: u64)
    requires
        computes(*f),
    ensures
        r == crossed(*f, a, b, c),
{
    minus(
        f,
        times(f, minus(f, b.x, a.x), minus(f, c.y, a.y)),
        times(f, minus(f, b.y, a.y), minus(f, c.x, a.x)),
    )
}

fn ask_distance<F: Fn(Op, u64, u64) -> u64>(f: &F, a: Point2, b: Point2) -> (r: u64)
    requires
        computes(*f),
    ensures
        r == apart(*f, a, b),
{
    let dx: u64 = minus(f, a.x, b.x);
    let dy: u64 = minus(f, a.y, b.y);
    plus(f, times(f, dx, dx), times(f, dy, dy))
}

fn ask_near<F: Fn(Op, u64, u64) -> u64>(f: &F, a: Point2, b: Point2) -> (r: bool)
    requires
        computes(*f),
    ensures
        r == alike(*f, a, b),
{
    double::less(double::absolute(minus(f, a.x, b.x)), TINY) && double::less(
        double::absolute(minus(f, a.y, b.y)),
        TINY,
    )
}

/// The normal of a loop.
fn normal_of<F: Fn(Op, u64, u64) -> u64>(f: &F, ring: &Vec<Vec3>) -> (r: Vec3)
    requires
        computes(*f),
    ensures
        r == loop_normal(*f, ring@, ring@.len() as int),
{
    let n: usize = ring.len();
    let mut out: Vec3 = Vec3::zero();
    let mut i: usize = 0;
    while i < n
        invariant
            computes(*f),
            i <= n == ring@.len(),
            out == loop_normal(*f, ring@, i as int),
        decreases n - i,
    {
        let next: usize = if i + 1 < n {
            i + 1
        } else {
            0
        };
        out = lift(f, out, ring[i], ring[next]);
        i += 1;
    }
    out
}

/// The area of a ring.
fn area_of<F: Fn(Op, u64, u64) -> u64>(f: &F, ring: &Vec<Point2>) -> (r: u64)
    requires
        computes(*f),
    ensures
        r == ring_area(*f, ring@),
{
    let n: usize = ring.len();
    let mut out: u64 = ZERO;
    let mut i: usize = 0;
    while i < n
        invariant
            computes(*f),
            i <= n == ring@.len(),
            out == loop_sweep(*f, ring@, i as int),
        decreases n - i,
    {
        let next: usize = if i + 1 < n {
            i + 1
        } else {
            0
        };
        out = sweep(f, out, ring[i], ring[next]);
        i += 1;
    }
    double::halve(out)
}

/// The ring, turned round where it turns the wrong way.
fn orient<F: Fn(Op, u64, u64) -> u64>(f: &F, ring: &Vec<Vec3>, axis: u8, left: bool) -> (r: Vec<Vec3>)
    requires
        computes(*f),
    ensures
        r@ == oriented(*f, ring@, axis, left),
{
    let flat: Vec<Point2> = project(ring, axis);
    let area: u64 = area_of(f, &flat);
    let n: usize = ring.len();
    let turn: bool = (left && double::less(area, ZERO)) || (!left && double::less(ZERO, area));
    let mut out: Vec<Vec3> = Vec::new();
    let mut i: usize = 0;
    while i < n
        invariant
            i <= n == ring@.len(),
            out@.len() == i,
            forall|k: int|
                0 <= k < i ==> #[trigger] out@[k] == if turn {
                    ring@[n - 1 - k]
                } else {
                    ring@[k]
                },
        decreases n - i,
    {
        if turn {
            out.push(ring[n - 1 - i]);
        } else {
            out.push(ring[i]);
        }
        i += 1;
    }
    assert(out@ =~= oriented(*f, ring@, axis, left));
    out
}

fn do_segments_intersect<F: Fn(Op, u64, u64) -> u64>(f: &F, a: Point2, b: Point2, c: Point2, d: Point2) -> (r: bool)
    requires
        computes(*f),
    ensures
        r == segments_intersect(*f, a, b, c, d),
{
    are_opposite(ask_cross(f, c, d, a), ask_cross(f, c, d, b)) && are_opposite(
        ask_cross(f, a, b, c),
        ask_cross(f, a, b, d),
    )
}

/// Whether a segment crosses an edge of a ring.
fn crosses<F: Fn(Op, u64, u64) -> u64>(f: &F, a: Point2, b: Point2, ring: &Vec<Point2>) -> (r: bool)
    requires
        computes(*f),
    ensures
        r == crosses_ring(*f, a, b, ring@),
{
    let n: usize = ring.len();
    let mut i: usize = 0;
    while i < n
        invariant
            computes(*f),
            i <= n == ring@.len(),
            forall|k: int|
                0 <= k < i ==> !segments_intersect(
                    *f,
                    a,
                    b,
                    #[trigger] ring@[k],
                    next_on(ring@, k),
                ),
        decreases n - i,
    {
        let next: usize = if i + 1 < n {
            i + 1
        } else {
            0
        };
        if do_segments_intersect(f, a, b, ring[i], ring[next]) {
            assert(segments_intersect(
                *f,
                a,
                b,
                ring@[i as int],
                next_on(ring@, i as int),
            ));
            return true;
        }
        i += 1;
    }
    false
}

/// Where a hole can be joined to a ring.
fn find_bridge<F: Fn(Op, u64, u64) -> u64>(f: &F, ring: &Vec<Point2>, hole: &Vec<Point2>, h: usize) -> (r: Option<usize>)
    requires
        computes(*f),
        h < hole@.len(),
    ensures
        match r {
            Some(b) => bridge_to(
                *f,
                ring@,
                hole@,
                h as int,
                ring@.len() as int,
            ) == Some(b as int) && b < ring@.len(),
            None => bridge_to(
                *f,
                ring@,
                hole@,
                h as int,
                ring@.len() as int,
            ) is None,
        },
{
    let n: usize = ring.len();
    let mut best: Option<usize> = None;
    let mut i: usize = 0;
    while i < n
        invariant
            computes(*f),
            h < hole@.len(),
            i <= n == ring@.len(),
            match best {
                Some(b) => bridge_to(
                    *f,
                    ring@,
                    hole@,
                    h as int,
                    i as int,
                ) == Some(b as int) && b < n,
                None => bridge_to(
                    *f,
                    ring@,
                    hole@,
                    h as int,
                    i as int,
                ) is None,
            },
        decreases n - i,
    {
        if !crosses(f, ring[i], hole[h], ring) && !crosses(f, ring[i], hole[h], hole) {
            match best {
                None => {
                    best = Some(i);
                },
                Some(b) => {
                    if double::less(
                        ask_distance(f, ring[i], hole[h]),
                        ask_distance(f, ring[b], hole[h]),
                    ) {
                        best = Some(i);
                    }
                },
            }
        }
        i += 1;
    }
    best
}

/// Bridge a hole into a ring.
fn add_hole<F: Fn(Op, u64, u64) -> u64>(f: &F, axis: u8, ring: Vec<Vec3>, hole: &Vec<Vec3>) -> (r: Option<Vec<Vec3>>)
    requires
        computes(*f),
    ensures
        match r {
            Some(v) => with_hole(*f, axis, ring@, hole@) == Some(v@),
            None => with_hole(*f, axis, ring@, hole@) is None,
        },
{
    proof {
        reveal(with_hole);
    }
    if hole.len() < 3 {
        return Some(ring);
    }
    let turned: Vec<Vec3> = orient(f, hole, axis, false);
    let flat: Vec<Point2> = project(&turned, axis);
    let h: usize = find_rightmost(&flat);
    let ring2: Vec<Point2> = project(&ring, axis);
    match find_bridge(f, &ring2, &flat, h) {
        Some(b) => Some(splice(&ring, &turned, b, h)),
        None => None,
    }
}

fn is_in_triangle<F: Fn(Op, u64, u64) -> u64>(f: &F, p: Point2, a: Point2, b: Point2, c: Point2) -> (r: bool)
    requires
        computes(*f),
    ensures
        r == in_triangle(*f, p, a, b, c),
{
    let d1: u64 = ask_cross(f, p, a, b);
    let d2: u64 = ask_cross(f, p, b, c);
    let d3: u64 = ask_cross(f, p, c, a);
    let negative: bool = double::less(d1, ZERO) || double::less(d2, ZERO) || double::less(
        d3,
        ZERO,
    );
    let positive: bool = double::less(ZERO, d1) || double::less(ZERO, d2) || double::less(
        ZERO,
        d3,
    );
    !(negative && positive)
}

/// Whether the corner at `i` can be cut off.
fn can_clip<F: Fn(Op, u64, u64) -> u64>(f: &F, ring: &Vec<Point2>, rest: &Vec<usize>, i: usize) -> (r: bool)
    requires
        computes(*f),
        i < rest@.len(),
        forall|k: int| 0 <= k < rest@.len() ==> #[trigger] rest@[k] < ring@.len(),
    ensures
        r == is_ear(*f, ring@, rest@, i as int),
{
    let n: usize = rest.len();
    let ia: usize = if i > 0 {
        rest[i - 1]
    } else {
        rest[n - 1]
    };
    let ib: usize = rest[i];
    let ic: usize = if i + 1 < n {
        rest[i + 1]
    } else {
        rest[0]
    };
    let (a, b, c): (Point2, Point2, Point2) = (ring[ia], ring[ib], ring[ic]);
    if double::less_or_equal(ask_cross(f, a, b, c), TINY) {
        return false;
    }
    let mut k: usize = 0;
    while k < n
        invariant
            computes(*f),
            k <= n == rest@.len(),
            i < n,
            ia == before_on(rest@, i as int),
            ib == rest@[i as int],
            ic == next_on(rest@, i as int),
            a == ring@[ia as int],
            b == ring@[ib as int],
            c == ring@[ic as int],
            forall|k: int| 0 <= k < rest@.len() ==> #[trigger] rest@[k] < ring@.len(),
            forall|j: int|
                0 <= j < k && #[trigger] rest@[j] != ia && rest@[j] != ib && rest@[j] != ic
                    ==> !blocks(
                    *f,
                    ring@[rest@[j] as int],
                    a,
                    b,
                    c,
                ),
        decreases n - k,
    {
        let j: usize = rest[k];
        if j != ia && j != ib && j != ic {
            let p: Point2 = ring[j];
            if !ask_near(f, p, a) && !ask_near(f, p, b) && !ask_near(f, p, c)
                && is_in_triangle(f, p, a, b, c) {
                assert(blocks(*f, ring@[rest@[k as int] as int], a, b, c));
                return false;
            }
        }
        k += 1;
    }
    true
}

/// The first corner that can be cut off.
fn find_ear<F: Fn(Op, u64, u64) -> u64>(f: &F, ring: &Vec<Point2>, rest: &Vec<usize>) -> (r: Option<usize>)
    requires
        computes(*f),
        forall|k: int| 0 <= k < rest@.len() ==> #[trigger] rest@[k] < ring@.len(),
    ensures
        match r {
            Some(i) => ear_from(*f, ring@, rest@, 0) == Some(i as int) && i
                < rest@.len(),
            None => ear_from(*f, ring@, rest@, 0) is None,
        },
{
    let n: usize = rest.len();
    let mut i: usize = 0;
    while i < n
        invariant
            computes(*f),
            i <= n == rest@.len(),
            forall|k: int| 0 <= k < rest@.len() ==> #[trigger] rest@[k] < ring@.len(),
            ear_from(*f, ring@, rest@, 0) == ear_from(
                *f,
                ring@,
                rest@,
                i as int,
            ),
        decreases n - i,
    {
        if can_clip(f, ring, rest, i) {
            return Some(i);
        }
        i += 1;
    }
    None
}

/// Cut ears off a ring.
fn clip<F: Fn(Op, u64, u64) -> u64>(f: &F, ring: &Vec<Point2>) -> (r: Vec<u32>)
    requires
        computes(*f),
        ring@.len() <= u32::MAX,
    ensures
        r@ == clipped(*f, ring@, corners(ring@.len())),
{
    let n: usize = ring.len();
    let mut rest: Vec<usize> = Vec::new();
    let mut i: usize = 0;
    while i < n
        invariant
            i <= n,
            rest@ == corners(i as nat),
        decreases n - i,
    {
        rest.push(i);
        i += 1;
        assert(rest@ =~= corners(i as nat));
    }
    let mut indices: Vec<u32> = Vec::new();
    let ghost all = clipped(*f, ring@, rest@);
    assert(indices@ + all =~= all);
    while rest.len() > 3
        invariant
            computes(*f),
            ring@.len() <= u32::MAX,
            forall|k: int| 0 <= k < rest@.len() ==> #[trigger] rest@[k] < ring@.len(),
            all == indices@ + clipped(*f, ring@, rest@),
        ensures
            rest@.len() <= 3 || ear_from(*f, ring@, rest@, 0) is None,
        decreases rest@.len(),
    {
        let m: usize = rest.len();
        match find_ear(f, ring, &rest) {
            None => {
                break;
            },
            Some(k) => {
                let before: usize = if k > 0 {
                    rest[k - 1]
                } else {
                    rest[m - 1]
                };
                let after: usize = if k + 1 < m {
                    rest[k + 1]
                } else {
                    rest[0]
                };
                let ghost was = indices@;
                let ghost left = rest@;
                indices.push(before as u32);
                indices.push(rest[k] as u32);
                indices.push(after as u32);
                rest.remove(k);
                proof {
                    let tail = clipped(*f, ring@, rest@);
                    let triangle = seq![before as u32, left[k as int] as u32, after as u32];
                    assert(clipped(*f, ring@, left) == triangle + tail);
                    assert(was + (triangle + tail) =~= indices@ + tail);
                }
            },
        }
    }
    let m: usize = rest.len();
    let mut last: Vec<u32> = Vec::new();
    let mut k: usize = 0;
    while k < m
        invariant
            k <= m == rest@.len(),
            last@.len() == k,
            forall|j: int| 0 <= j < k ==> #[trigger] last@[j] == rest@[j] as u32,
        decreases m - k,
    {
        last.push(rest[k] as u32);
        k += 1;
    }
    proof {
        assert(last@ =~= rest@.map_values(|k: usize| k as u32));
    }
    mesh::push_fan(&mut indices, last.as_slice());
    indices
}

/// Triangulate loops (the first is the outline, the rest are holes): the merged ring and
/// triangle indices into it. `None` where a hole cannot be bridged in, or fewer than three
/// points are left.
pub fn triangulate_with_holes<F: Fn(Op, u64, u64) -> u64>(loops: &Vec<Vec<Vec3>>, f: &F) -> (r: Option<(Vec<Vec3>, Vec<u32>)>)
    requires
        computes(*f),
        loops@.len() >= 1,
        total_points(loops@) <= u32::MAX,
    ensures
        match r {
            Some((ring, indices)) => triangulated(*f, loop_views(loops@)) == Some(
                (ring@, indices@),
            ),
            None => triangulated(*f, loop_views(loops@)) is None,
        },
{
    let ghost views = loop_views(loops@);
    let n: usize = loops.len();
    let normal: Vec3 = normal_of(f, &loops[0]);
    let axis: u8 = find_axis(normal);
    let mut ring: Vec<Vec3> = orient(f, &loops[0], axis, true);
    let mut i: usize = 1;
    proof {
        assert(views[0] == loops@[0]@);
        total_of_one(loops@);
    }
    while i < n
        invariant
            computes(*f),
            1 <= i <= n == loops@.len(),
            views == loop_views(loops@),
            merged(*f, axis, views, i as int) == Some(ring@),
            ring@.len() <= total_points(loops@.take(i as int)),
            total_points(loops@) <= u32::MAX,
            axis == dominant_axis(loop_normal(*f, views[0], views[0].len() as int)),
        decreases n - i,
    {
        let ghost was = ring@;
        proof {
            assert(views[i as int] == loops@[i as int]@);
            assert(loops@.take(i + 1).drop_last() =~= loops@.take(i as int));
        }
        match add_hole(f, axis, ring, &loops[i]) {
            Some(more) => {
                proof {
                    hole_grows(*f, axis, was, loops@[i as int]@);
                }
                ring = more;
            },
            None => {
                proof {
                    merged_none(*f, axis, views, i + 1);
                }
                return None;
            },
        }
        i += 1;
    }
    assert(loops@.take(n as int) =~= loops@);
    if ring.len() < 3 {
        return None;
    }
    let flat: Vec<Point2> = project(&ring, axis);
    let indices: Vec<u32> = clip(f, &flat);
    Some((ring, indices))
}

/// The points of each loop.
pub open spec fn loop_views(loops: Seq<Vec<Vec3>>) -> Seq<Seq<Vec3>> {
    loops.map_values(|l: Vec<Vec3>| l@)
}

/// How many points the loops have, and two more for each bridge.
pub open spec fn total_points(loops: Seq<Vec<Vec3>>) -> int
    decreases loops.len(),
{
    if loops.len() == 0 {
        0
    } else {
        total_points(loops.drop_last()) + loops.last()@.len() + 2
    }
}

proof fn total_of_one(loops: Seq<Vec<Vec3>>)
    requires
        loops.len() >= 1,
    ensures
        loops[0]@.len() <= total_points(loops.take(1)),
{
    let one = loops.take(1);
    assert(one.drop_last() =~= seq![]);
    assert(total_points(one) == total_points(one.drop_last()) + one.last()@.len() + 2);
}

proof fn hole_grows<F: Fn(Op, u64, u64) -> u64>(f: F, axis: u8, ring: Seq<Vec3>, hole: Seq<Vec3>)
    requires
        with_hole(f, axis, ring, hole) is Some,
    ensures
        with_hole(f, axis, ring, hole)->0.len() <= ring.len() + hole.len() + 2,
{
    reveal(with_hole);
    if hole.len() >= 3 {
        let turned = oriented(f, hole, axis, false);
        let flat = projected(turned, axis);
        rightmost_bounds(flat, flat.len() as int);
        bridge_bounds(
            f,
            projected(ring, axis),
            flat,
            rightmost(flat, flat.len() as int),
            ring.len() as int,
        );
    }
}

proof fn rightmost_bounds(ring: Seq<Point2>, n: int)
    requires
        1 <= n <= ring.len(),
    ensures
        0 <= rightmost(ring, n) < n,
    decreases n,
{
    if n > 1 {
        rightmost_bounds(ring, n - 1);
    }
}

proof fn bridge_bounds<F: Fn(Op, u64, u64) -> u64>(f: F, ring: Seq<Point2>, hole: Seq<Point2>, h: int, n: int)
    ensures
        bridge_to(f, ring, hole, h, n) matches Some(b) ==> 0 <= b < n,
    decreases n,
{
    if n > 0 {
        bridge_bounds(f, ring, hole, h, n - 1);
    }
}

proof fn merged_none<F: Fn(Op, u64, u64) -> u64>(f: F, axis: u8, loops: Seq<Seq<Vec3>>, n: int)
    requires
        1 <= n <= loops.len(),
        merged(f, axis, loops, n) is None,
    ensures
        merged(f, axis, loops, loops.len() as int) is None,
    decreases loops.len() - n,
{
    if n < loops.len() {
        merged_none(f, axis, loops, n + 1);
    }
}

fn are_opposite(a: u64, b: u64) -> (r: bool)
    ensures
        r == opposite(a, b),
{
    (double::less(ZERO, a) && double::less(b, ZERO)) || (double::less(a, ZERO) && double::less(
        ZERO,
        b,
    ))
}

fn find_axis(n: Vec3) -> (r: u8)
    ensures
        r == dominant_axis(n),
{
    let half: u64 = 0x8000_0000_0000_0000;
    let (x, y, z): (u64, u64, u64) = (n.x % half, n.y % half, n.z % half);
    if double::less_or_equal(y, x) && double::less_or_equal(z, x) {
        0
    } else if double::less_or_equal(z, y) {
        1
    } else {
        2
    }
}

/// A ring seen along an axis.
fn project(ring: &Vec<Vec3>, axis: u8) -> (r: Vec<Point2>)
    ensures
        r@ == projected(ring@, axis),
{
    let n: usize = ring.len();
    let mut out: Vec<Point2> = Vec::new();
    let mut i: usize = 0;
    while i < n
        invariant
            i <= n == ring@.len(),
            out@.len() == i,
            forall|k: int| 0 <= k < i ==> #[trigger] out@[k] == seen_along(ring@[k], axis),
        decreases n - i,
    {
        let p: Vec3 = ring[i];
        out.push(
            if axis == 0 {
                Point2 { x: p.y, y: p.z }
            } else if axis == 1 {
                Point2 { x: p.z, y: p.x }
            } else {
                Point2 { x: p.x, y: p.y }
            },
        );
        i += 1;
    }
    assert(out@ =~= projected(ring@, axis));
    out
}

fn find_rightmost(ring: &Vec<Point2>) -> (r: usize)
    requires
        ring@.len() >= 1,
    ensures
        r == rightmost(ring@, ring@.len() as int),
        r < ring@.len(),
{
    let n: usize = ring.len();
    let mut best: usize = 0;
    let mut i: usize = 1;
    while i < n
        invariant
            1 <= i <= n == ring@.len(),
            best < n,
            best == rightmost(ring@, i as int),
        decreases n - i,
    {
        if !double::less(ring[i].x, ring[best].x) {
            best = i;
        }
        i += 1;
    }
    best
}

fn push_range(out: &mut Vec<Vec3>, v: &Vec<Vec3>, from: usize, to: usize)
    requires
        from <= to <= v@.len(),
    ensures
        final(out)@ == old(out)@ + v@.subrange(from as int, to as int),
{
    let ghost before = out@;
    let mut i: usize = from;
    assert(before + v@.subrange(from as int, from as int) =~= before);
    while i < to
        invariant
            from <= i <= to <= v@.len(),
            out@ == before + v@.subrange(from as int, i as int),
        decreases to - i,
    {
        out.push(v[i]);
        i += 1;
        assert(out@ =~= before + v@.subrange(from as int, i as int));
    }
}

/// A hole spliced into a ring.
fn splice(ring: &Vec<Vec3>, hole: &Vec<Vec3>, bridge: usize, h: usize) -> (r: Vec<Vec3>)
    requires
        bridge < ring@.len(),
        h < hole@.len(),
    ensures
        r@ == spliced(ring@, hole@, bridge as int, h as int),
{
    let n: usize = ring.len();
    let m: usize = hole.len();
    let mut out: Vec<Vec3> = Vec::new();
    push_range(&mut out, ring, 0, bridge + 1);
    push_range(&mut out, hole, h, m);
    push_range(&mut out, hole, 0, h + 1);
    push_range(&mut out, ring, bridge, n);
    assert(out@ =~= spliced(ring@, hole@, bridge as int, h as int));
    out
}

/// The mesh of loops: their triangulation, with smooth normals.
pub open spec fn loops_sheet<F: Fn(Op, u64, u64) -> u64>(
    f: F,
    loops: Seq<Seq<Vec3>>,
) -> Option<PolygonMeshView> {
    match triangulated(f, loops) {
        None => None,
        Some((ring, indices)) => {
            let positions = ring.map_values(|p: Vec3| normals::single_triple(p));
            Some(
                PolygonMeshView {
                    positions,
                    indices,
                    normals: Some(normals::vertex_normals(f, positions, indices)),
                    st: None,
                    positions1: None,
                },
            )
        },
    }
}

/// How many corners the ring of loops can have: those of the loops, and two for each bridge.
pub open spec fn corners_in(loops: Seq<Seq<Vec3>>) -> int
    decreases loops.len(),
{
    if loops.len() == 0 {
        0
    } else {
        corners_in(loops.drop_last()) + loops.last().len() + 2
    }
}

proof fn corners_counted(loops: Seq<Vec<Vec3>>)
    ensures
        corners_in(loop_views(loops)) == total_points(loops),
    decreases loops.len(),
{
    if loops.len() > 0 {
        corners_counted(loops.drop_last());
        assert(loop_views(loops).drop_last() =~= loop_views(loops.drop_last()));
    }
}

proof fn corners_grow(loops: Seq<Seq<Vec3>>, i: int)
    requires
        0 <= i <= loops.len(),
    ensures
        0 <= corners_in(loops.take(i)) <= corners_in(loops),
    decreases loops.len(),
{
    if i < loops.len() {
        corners_grow(loops.drop_last(), i);
        assert(loops.drop_last().take(i) =~= loops.take(i));
    } else {
        assert(loops.take(i) =~= loops);
        if i > 0 {
            corners_grow(loops.drop_last(), i - 1);
            assert(loops.drop_last().take(i - 1) =~= loops.drop_last());
        }
    }
}

/// Whether loops can be cut into triangles whose corners can be numbered.
pub open spec fn is_triangulable<F: Fn(Op, u64, u64) -> u64>(f: F, loops: Seq<Seq<Vec3>>) -> bool {
    loops.len() >= 1 && corners_in(loops) <= u32::MAX && loops_sheet(f, loops) is Some
}

/// Whether loops can be cut into triangles whose corners can be numbered.
pub fn can_triangulate<F: Fn(Op, u64, u64) -> u64>(loops: &Vec<Vec<Vec3>>, f: &F) -> (r: bool)
    requires
        computes(*f),
    ensures
        r == is_triangulable(*f, loop_views(loops@)),
{
    let ghost views = loop_views(loops@);
    let n: usize = loops.len();
    if n == 0 {
        return false;
    }
    let mut total: u64 = 0;
    let mut i: usize = 0;
    assert(views.take(0).len() == 0);
    while i < n
        invariant
            i <= n == loops@.len(),
            views == loop_views(loops@),
            total == corners_in(views.take(i as int)),
            total <= u32::MAX,
        decreases n - i,
    {
        proof {
            corners_grow(views, i + 1);
            assert(views.take(i + 1).drop_last() =~= views.take(i as int));
            assert(views.take(i + 1).last() == loops@[i as int]@);
        }
        let len: u64 = loops[i].len() as u64;
        if len > 0xffff_fffd || total + len + 2 > 0xffff_ffff {
            return false;
        }
        total = total + len + 2;
        i += 1;
    }
    proof {
        assert(views.take(n as int) =~= views);
        corners_counted(loops@);
    }
    loops_mesh(loops, f).is_some()
}

/// The mesh of loops.
pub fn loops_mesh<F: Fn(Op, u64, u64) -> u64>(loops: &Vec<Vec<Vec3>>, f: &F) -> (r: Option<
    PolygonMesh,
>)
    requires
        computes(*f),
        loops@.len() >= 1,
        total_points(loops@) <= u32::MAX,
    ensures
        match r {
            Some(m) => loops_sheet(*f, loop_views(loops@)) == Some(m@),
            None => loops_sheet(*f, loop_views(loops@)) is None,
        },
{
    let (ring, indices): (Vec<Vec3>, Vec<u32>) = match triangulate_with_holes(loops, f) {
        Some(t) => t,
        None => {
            return None;
        },
    };
    let ghost model = loops_sheet(*f, loop_views(loops@))->Some_0;
    proof {
        ring_is_bounded(*f, loops@);
        triangulation_covers(*f, loop_views(loops@));
    }
    let n: usize = ring.len();
    let mut positions: Vec<Single3> = Vec::new();
    let mut i: usize = 0;
    while i < n
        invariant
            i <= n == ring@.len(),
            positions@.len() == i,
            forall|k: int|
                0 <= k < i ==> #[trigger] positions@[k] == normals::single_triple(ring@[k]),
        decreases n - i,
    {
        positions.push(narrow_triple(ring[i]));
        i += 1;
    }
    assert(positions@ =~= model.positions);
    let lit: Vec<Single3> = smooth_normals(&positions, &indices, f);
    Some(PolygonMesh { positions, indices, normals: Some(lit), st: None, positions1: None })
}

/// A merged ring has no more points than its loops, and the ends of their bridges.
proof fn merged_is_bounded<F: Fn(Op, u64, u64) -> u64>(
    f: F,
    axis: u8,
    loops: Seq<Vec<Vec3>>,
    n: int,
)
    requires
        1 <= n <= loops.len(),
        merged(f, axis, loop_views(loops), n) is Some,
    ensures
        merged(f, axis, loop_views(loops), n)->0.len() <= total_points(loops.take(n)),
    decreases n,
{
    let views = loop_views(loops);
    if n <= 1 {
        total_of_one(loops);
        assert(views[0] == loops[0]@);
    } else {
        merged_is_bounded(f, axis, loops, n - 1);
        hole_grows(f, axis, merged(f, axis, views, n - 1)->0, views[n - 1]);
        assert(loops.take(n).drop_last() =~= loops.take(n - 1));
        assert(views[n - 1] == loops[n - 1]@);
    }
}

proof fn ring_is_bounded<F: Fn(Op, u64, u64) -> u64>(f: F, loops: Seq<Vec<Vec3>>)
    requires
        loops.len() >= 1,
        triangulated(f, loop_views(loops)) is Some,
    ensures
        triangulated(f, loop_views(loops)) matches Some((ring, _)) && ring.len() <= total_points(
            loops,
        ),
{
    let views = loop_views(loops);
    let axis = dominant_axis(loop_normal(f, views[0], views[0].len() as int));
    merged_is_bounded(f, axis, loops, loops.len() as int);
    assert(loops.take(loops.len() as int) =~= loops);
}

// ---- laws ------------------------------------------------------------------

/// Clipping gives two triangles fewer than there are corners, each with corners of the
/// ring.
pub proof fn clipping_covers<F: Fn(Op, u64, u64) -> u64>(f: F, ring: Seq<Point2>, rest: Seq<usize>)
    requires
        3 <= rest.len(),
        ring.len() <= u32::MAX,
        forall|k: int| 0 <= k < rest.len() ==> #[trigger] rest[k] < ring.len(),
    ensures
        clipped(f, ring, rest).len() == 3 * (rest.len() - 2),
        forall|k: int|
            0 <= k < clipped(f, ring, rest).len() ==> #[trigger] clipped(f, ring, rest)[k]
                < ring.len(),
    decreases rest.len(),
{
    let ear = ear_from(f, ring, rest, 0);
    if rest.len() > 3 && ear is Some && 0 <= ear->0 < rest.len() {
        let i = ear->0;
        let left = rest.remove(i);
        assert forall|k: int| 0 <= k < left.len() implies #[trigger] left[k] < ring.len() by {
            assert(left[k] == if k < i {
                rest[k]
            } else {
                rest[k + 1]
            });
        }
        clipping_covers(f, ring, left);
        let tail = clipped(f, ring, left);
        let all = clipped(f, ring, rest);
        assert forall|k: int| 0 <= k < all.len() implies #[trigger] all[k] < ring.len() by {
            if k >= 3 {
                assert(all[k] == tail[k - 3]);
            } else {
                assert(before_on(rest, i) < ring.len());
                assert(next_on(rest, i) < ring.len());
                assert(rest[i] < ring.len());
            }
        }
    } else {
        let last = rest.map_values(|k: usize| k as u32);
        let all = mesh::fan(last);
        assert forall|k: int| 0 <= k < all.len() implies #[trigger] all[k] < ring.len() by {
            assert(0 <= k / 3 + k % 3 < rest.len());
            assert(rest[k / 3 + k % 3] < ring.len());
            assert(rest[0] < ring.len());
        }
    }
}

/// A triangulation has two triangles fewer than its ring has points, and they name
/// points of the ring.
pub proof fn triangulation_covers<F: Fn(Op, u64, u64) -> u64>(f: F, loops: Seq<Seq<Vec3>>)
    requires
        triangulated(f, loops) matches Some((ring, _)) && ring.len() <= u32::MAX,
    ensures
        triangulated(f, loops) matches Some((ring, indices)) && indices.len() == 3 * (ring.len()
            - 2) && forall|k: int|
            0 <= k < indices.len() ==> #[trigger] indices[k] < ring.len(),
{
    let axis = dominant_axis(loop_normal(f, loops[0], loops[0].len() as int));
    let ring = merged(f, axis, loops, loops.len() as int)->0;
    let flat = projected(ring, axis);
    clipping_covers(f, flat, corners(ring.len()));
}

} // verus!
