//! What holds of every hierarchy that is built: its boxes are the least ones, every node but
//! the root has one parent, and every slot stands in one leaf.

use crate::accel::bvh;
use crate::accel::bvh::{Aabb, BvhView, Node, INFINITY, NEG_INFINITY};
use crate::accel::sah;
use crate::arith::Op;
use crate::double;
use crate::math::Vec3;
use vstd::prelude::*;

verus! {

// ---- growing boxes ---------------------------------------------------------

/// The smallest of a value and those of a list.
pub open spec fn lowest(m: u64, values: Seq<u64>) -> u64
    decreases values.len(),
{
    if values.len() == 0 {
        m
    } else {
        double::lesser(lowest(m, values.drop_last()), values.last())
    }
}

/// The largest of a value and those of a list.
pub open spec fn highest(m: u64, values: Seq<u64>) -> u64
    decreases values.len(),
{
    if values.len() == 0 {
        m
    } else {
        double::greater(highest(m, values.drop_last()), values.last())
    }
}

/// A box grown by each point in turn.
pub open spec fn grown_all(b: Aabb, points: Seq<Vec3>) -> Aabb
    decreases points.len(),
{
    if points.len() == 0 {
        b
    } else {
        bvh::grown(grown_all(b, points.drop_last()), points.last())
    }
}

/// The components of points on an axis.
pub open spec fn on_axis(points: Seq<Vec3>, axis: u8) -> Seq<u64> {
    points.map_values(|p: Vec3| bvh::component(p, axis))
}

proof fn grown_by_axis(b: Aabb, points: Seq<Vec3>, axis: u8)
    ensures
        bvh::component(grown_all(b, points).min, axis) == lowest(
            bvh::component(b.min, axis),
            on_axis(points, axis),
        ),
        bvh::component(grown_all(b, points).max, axis) == highest(
            bvh::component(b.max, axis),
            on_axis(points, axis),
        ),
    decreases points.len(),
{
    if points.len() > 0 {
        grown_by_axis(b, points.drop_last(), axis);
        assert(on_axis(points, axis).drop_last() =~= on_axis(points.drop_last(), axis));
    }
}

proof fn lowest_is_least(m: u64, values: Seq<u64>)
    ensures
        ({
            let r = lowest(m, values);
            &&& r == m || values.contains(r)
            &&& !double::is_nan(m) ==> double::at_most(r, m)
            &&& forall|i: int|
                0 <= i < values.len() && !double::is_nan(#[trigger] values[i]) ==> double::at_most(
                    r,
                    values[i],
                )
        }),
    decreases values.len(),
{
    if values.len() > 0 {
        let before = values.drop_last();
        lowest_is_least(m, before);
        let r = lowest(m, values);
        if r == lowest(m, before) {
            if r != m {
                let k = before.index_of(r);
                assert(before.contains(r));
                assert(values[k] == r);
            }
        } else {
            assert(values[values.len() - 1] == r);
        }
        assert forall|i: int|
            0 <= i < values.len() && !double::is_nan(#[trigger] values[i]) implies double::at_most(
            r,
            values[i],
        ) by {
            if i < before.len() {
                assert(before[i] == values[i]);
            }
        }
    }
}

proof fn highest_is_greatest(m: u64, values: Seq<u64>)
    ensures
        ({
            let r = highest(m, values);
            &&& r == m || values.contains(r)
            &&& !double::is_nan(m) ==> double::at_most(m, r)
            &&& forall|i: int|
                0 <= i < values.len() && !double::is_nan(#[trigger] values[i]) ==> double::at_most(
                    values[i],
                    r,
                )
        }),
    decreases values.len(),
{
    if values.len() > 0 {
        let before = values.drop_last();
        highest_is_greatest(m, before);
        let r = highest(m, values);
        if r == highest(m, before) {
            if r != m {
                let k = before.index_of(r);
                assert(before.contains(r));
                assert(values[k] == r);
            }
        } else {
            assert(values[values.len() - 1] == r);
        }
        assert forall|i: int|
            0 <= i < values.len() && !double::is_nan(#[trigger] values[i]) implies double::at_most(
            values[i],
            r,
        ) by {
            if i < before.len() {
                assert(before[i] == values[i]);
            }
        }
    }
}

/// Whether two doubles compare as equal, or are both no number.
pub open spec fn level(a: u64, b: u64) -> bool {
    (double::is_nan(a) && double::is_nan(b)) || (double::at_most(a, b) && double::at_most(b, a))
}

/// Whether the sides of two boxes stand in the same places.
pub open spec fn alike(a: Aabb, b: Aabb) -> bool {
    &&& level(a.min.x, b.min.x) && level(a.min.y, b.min.y) && level(a.min.z, b.min.z)
    &&& level(a.max.x, b.max.x) && level(a.max.y, b.max.y) && level(a.max.z, b.max.z)
}

/// Whether two lists have the same members.
pub open spec fn same_members<T>(a: Seq<T>, b: Seq<T>) -> bool {
    forall|x: T| #[trigger] a.contains(x) <==> b.contains(x)
}

proof fn axis_members(p: Seq<Vec3>, q: Seq<Vec3>, axis: u8)
    requires
        same_members(p, q),
    ensures
        same_members(on_axis(p, axis), on_axis(q, axis)),
{
    let (a, b) = (on_axis(p, axis), on_axis(q, axis));
    assert forall|x: u64| #[trigger] a.contains(x) implies b.contains(x) by {
        let i = a.index_of(x);
        assert(p.contains(p[i]));
        let j = q.index_of(p[i]);
        assert(q.contains(p[i]));
        assert(b[j] == x);
    }
    assert forall|x: u64| b.contains(x) implies #[trigger] a.contains(x) by {
        let j = b.index_of(x);
        assert(q.contains(q[j]));
        assert(p.contains(q[j]));
        let i = p.index_of(q[j]);
        assert(a[i] == x);
    }
}

proof fn ends_of_members(low: u64, high: u64, a: Seq<u64>, b: Seq<u64>)
    requires
        same_members(a, b),
    ensures
        level(lowest(low, a), lowest(low, b)),
        level(highest(high, a), highest(high, b)),
{
    lowest_is_least(low, a);
    lowest_is_least(low, b);
    highest_is_greatest(high, a);
    highest_is_greatest(high, b);
    let (la, lb) = (lowest(low, a), lowest(low, b));
    let (ha, hb) = (highest(high, a), highest(high, b));
    member_index(a, b, la);
    member_index(a, b, ha);
    member_index(a, b, lb);
    member_index(a, b, hb);
}

proof fn member_index(a: Seq<u64>, b: Seq<u64>, x: u64)
    requires
        same_members(a, b),
    ensures
        a.contains(x) || b.contains(x) ==> (exists|i: int| 0 <= i < a.len() && #[trigger] a[i] == x)
            && (exists|j: int| 0 <= j < b.len() && #[trigger] b[j] == x),
{
    if a.contains(x) || b.contains(x) {
        assert(a.contains(x) && b.contains(x));
    }
}

/// In what order a box is grown by points, and how often by each, changes none of its sides.
pub proof fn order_of_growing(b: Aabb, p: Seq<Vec3>, q: Seq<Vec3>)
    requires
        same_members(p, q),
    ensures
        alike(grown_all(b, p), grown_all(b, q)),
        forall|x: Vec3|
            #[trigger] bvh::holds(grown_all(b, p), x) == bvh::holds(grown_all(b, q), x),
{
    each_axis_levels(b, p, q, 0);
    each_axis_levels(b, p, q, 1);
    each_axis_levels(b, p, q, 2);
}

proof fn each_axis_levels(b: Aabb, p: Seq<Vec3>, q: Seq<Vec3>, axis: u8)
    requires
        same_members(p, q),
    ensures
        level(
            bvh::component(grown_all(b, p).min, axis),
            bvh::component(grown_all(b, q).min, axis),
        ),
        level(
            bvh::component(grown_all(b, p).max, axis),
            bvh::component(grown_all(b, q).max, axis),
        ),
{
    axis_members(p, q, axis);
    grown_by_axis(b, p, axis);
    grown_by_axis(b, q, axis);
    ends_of_members(
        bvh::component(b.min, axis),
        bvh::component(b.max, axis),
        on_axis(p, axis),
        on_axis(q, axis),
    );
}

/// Growing a box by one box and another comes to the same in either order.
pub proof fn boxes_grow_in_any_order(b: Aabb, c: Aabb, d: Aabb)
    ensures
        alike(
            bvh::grown(bvh::grown(bvh::grown(bvh::grown(b, c.min), c.max), d.min), d.max),
            bvh::grown(bvh::grown(bvh::grown(bvh::grown(b, d.min), d.max), c.min), c.max),
        ),
{
    let p = seq![c.min, c.max, d.min, d.max];
    let q = seq![d.min, d.max, c.min, c.max];
    assert forall|x: Vec3| #[trigger] p.contains(x) <==> q.contains(x) by {
        assert(p[0] == q[2] && p[1] == q[3] && p[2] == q[0] && p[3] == q[1]);
        if p.contains(x) {
            let i = p.index_of(x);
            assert(q[(i + 2) % 4] == x);
        }
        if q.contains(x) {
            let i = q.index_of(x);
            assert(p[(i + 2) % 4] == x);
        }
    }
    order_of_growing(b, p, q);
    four_grown(b, p);
    four_grown(b, q);
}

proof fn four_grown(b: Aabb, p: Seq<Vec3>)
    requires
        p.len() == 4,
    ensures
        grown_all(b, p) == bvh::grown(
            bvh::grown(bvh::grown(bvh::grown(b, p[0]), p[1]), p[2]),
            p[3],
        ),
{
    let (p3, p2, p1) = (p.drop_last(), p.drop_last().drop_last(), p.drop_last().drop_last().drop_last());
    assert(grown_all(b, p1.drop_last()) == b);
    assert(grown_all(b, p1) == bvh::grown(b, p[0]));
    assert(grown_all(b, p2) == bvh::grown(grown_all(b, p1), p[1]));
    assert(grown_all(b, p3) == bvh::grown(grown_all(b, p2), p[2]));
}

// ---- least boxes -----------------------------------------------------------

/// The box that holds nothing.
pub open spec fn nothing() -> Aabb {
    bvh::box_around(seq![])
}

proof fn around_is_grown(points: Seq<Vec3>)
    ensures
        bvh::box_around(points) == grown_all(nothing(), points),
    decreases points.len(),
{
    if points.len() > 0 {
        around_is_grown(points.drop_last());
    } else {
        assert(points =~= seq![]);
    }
}

/// No double stands above the infinite one or below the negative one.
proof fn infinities_are_last(v: u64)
    requires
        !double::is_nan(v),
    ensures
        double::at_most(v, INFINITY),
        double::at_most(NEG_INFINITY, v),
{
    assert(!double::is_nan(INFINITY) && !double::is_nan(NEG_INFINITY));
    if double::is_negative(v) {
        assert(v <= NEG_INFINITY);
    } else {
        assert(v <= INFINITY);
    }
}

/// Whether one of the points is a number on each axis.
pub open spec fn stands_somewhere(points: Seq<Vec3>) -> bool {
    forall|axis: u8| axis < 3 ==> #[trigger] has_number(on_axis(points, axis))
}

/// Whether one of the values is a number.
pub open spec fn has_number(values: Seq<u64>) -> bool {
    exists|i: int| 0 <= i < values.len() && !double::is_nan(#[trigger] values[i])
}

proof fn ends_within(lo: u64, hi: u64, values: Seq<u64>)
    requires
        has_number(values),
        forall|i: int| 0 <= i < values.len() ==> bvh::within(lo, #[trigger] values[i], hi),
    ensures
        double::at_most(lo, lowest(INFINITY, values)),
        double::at_most(lowest(INFINITY, values), hi),
        double::at_most(lo, highest(NEG_INFINITY, values)),
        double::at_most(highest(NEG_INFINITY, values), hi),
{
    lowest_is_least(INFINITY, values);
    highest_is_greatest(NEG_INFINITY, values);
    let k = choose|i: int| 0 <= i < values.len() && !double::is_nan(#[trigger] values[i]);
    infinities_are_last(values[k]);
    let (l, h) = (lowest(INFINITY, values), highest(NEG_INFINITY, values));
    if values.contains(l) {
        let i = values.index_of(l);
        assert(bvh::within(lo, values[i], hi));
    }
    if values.contains(h) {
        let i = values.index_of(h);
        assert(bvh::within(lo, values[i], hi));
    }
    assert(bvh::within(lo, values[k], hi));
}

/// The box around points is the least: a box that holds all of them covers it.
pub proof fn box_around_is_least(points: Seq<Vec3>, c: Aabb)
    requires
        stands_somewhere(points),
        forall|i: int| 0 <= i < points.len() ==> bvh::holds(c, #[trigger] points[i]),
    ensures
        bvh::covers(c, bvh::box_around(points)),
{
    around_is_grown(points);
    ends_on_axis(points, c, 0);
    ends_on_axis(points, c, 1);
    ends_on_axis(points, c, 2);
}

proof fn ends_on_axis(points: Seq<Vec3>, c: Aabb, axis: u8)
    requires
        axis < 3,
        stands_somewhere(points),
        forall|i: int| 0 <= i < points.len() ==> bvh::holds(c, #[trigger] points[i]),
    ensures
        ({
            let b = grown_all(nothing(), points);
            let (lo, hi) = (bvh::component(c.min, axis), bvh::component(c.max, axis));
            &&& bvh::within(lo, bvh::component(b.min, axis), hi)
            &&& bvh::within(lo, bvh::component(b.max, axis), hi)
        }),
{
    grown_by_axis(nothing(), points, axis);
    let values = on_axis(points, axis);
    assert(has_number(values));
    assert forall|i: int| 0 <= i < values.len() implies bvh::within(
        bvh::component(c.min, axis),
        #[trigger] values[i],
        bvh::component(c.max, axis),
    ) by {
        assert(bvh::holds(c, points[i]));
    }
    ends_within(bvh::component(c.min, axis), bvh::component(c.max, axis), values);
}

/// The corners of the boxes of the primitives in `count` slots.
pub open spec fn corners(order: Seq<u32>, bounds: Seq<Aabb>, start: int, count: int) -> Seq<Vec3>
    decreases count,
{
    if count <= 0 {
        seq![]
    } else {
        let b = bounds[order[start + count - 1] as int];
        corners(order, bounds, start, count - 1).push(b.min).push(b.max)
    }
}

proof fn around_one_more(points: Seq<Vec3>, p: Vec3)
    ensures
        bvh::box_around(points.push(p)) == bvh::grown(bvh::box_around(points), p),
{
    assert(points.push(p).drop_last() =~= points);
}

proof fn slots_box_is_around(order: Seq<u32>, bounds: Seq<Aabb>, start: int, count: int)
    ensures
        bvh::slots_box(order, bounds, start, count) == bvh::box_around(
            corners(order, bounds, start, count),
        ),
    decreases count,
{
    if count > 0 {
        slots_box_is_around(order, bounds, start, count - 1);
        let b = bounds[order[start + count - 1] as int];
        let before = corners(order, bounds, start, count - 1);
        around_one_more(before, b.min);
        around_one_more(before.push(b.min), b.max);
    }
}

proof fn corner_slots(order: Seq<u32>, bounds: Seq<Aabb>, start: int, count: int)
    requires
        count >= 0,
    ensures
        corners(order, bounds, start, count).len() == 2 * count,
        forall|s: int|
            start <= s < start + count ==> {
                let b = bounds[#[trigger] order[s] as int];
                &&& corners(order, bounds, start, count)[2 * (s - start)] == b.min
                &&& corners(order, bounds, start, count)[2 * (s - start) + 1] == b.max
            },
    decreases count,
{
    if count > 0 {
        corner_slots(order, bounds, start, count - 1);
    }
}

/// Whether a box covers those of the primitives in the slots of `[lo, hi)`.
pub open spec fn all_covered(c: Aabb, order: Seq<u32>, bounds: Seq<Aabb>, lo: int, hi: int) -> bool {
    forall|s: int| lo <= s < hi ==> bvh::covers(c, bounds[#[trigger] order[s] as int])
}

/// Whether on an axis a corner of the primitives in the slots of `[lo, hi)` is a number.
pub open spec fn numbered(order: Seq<u32>, bounds: Seq<Aabb>, lo: int, hi: int, axis: u8) -> bool {
    exists|s: int|
        lo <= s < hi && is_numbered(bounds[#[trigger] order[s] as int], axis)
}

/// Whether on an axis a corner of the box is a number.
pub open spec fn is_numbered(b: Aabb, axis: u8) -> bool {
    !double::is_nan(bvh::component(b.min, axis)) || !double::is_nan(bvh::component(b.max, axis))
}

/// Whether the primitives in the slots of `[lo, hi)` stand somewhere on each axis.
pub open spec fn stand_somewhere(order: Seq<u32>, bounds: Seq<Aabb>, lo: int, hi: int) -> bool {
    numbered(order, bounds, lo, hi, 0) && numbered(order, bounds, lo, hi, 1) && numbered(
        order,
        bounds,
        lo,
        hi,
        2,
    )
}

/// Whether a box covers the boxes of the primitives in the slots of `[lo, hi)`, and any box
/// that does so covers it.
pub open spec fn is_least(b: Aabb, order: Seq<u32>, bounds: Seq<Aabb>, lo: int, hi: int) -> bool {
    &&& all_covered(b, order, bounds, lo, hi)
    &&& stand_somewhere(order, bounds, lo, hi) ==> forall|c: Aabb|
        #[trigger] all_covered(c, order, bounds, lo, hi) ==> bvh::covers(c, b)
}

proof fn numbered_corners(order: Seq<u32>, bounds: Seq<Aabb>, start: int, count: int, axis: u8)
    requires
        count >= 0,
        numbered(order, bounds, start, start + count, axis),
    ensures
        has_number(on_axis(corners(order, bounds, start, count), axis)),
{
    corner_slots(order, bounds, start, count);
    let s = choose|s: int|
        start <= s < start + count && is_numbered(bounds[#[trigger] order[s] as int], axis);
    let values = on_axis(corners(order, bounds, start, count), axis);
    let b = bounds[order[s] as int];
    let i = 2 * (s - start);
    assert(values[i] == bvh::component(b.min, axis));
    assert(values[i + 1] == bvh::component(b.max, axis));
}

proof fn slots_box_is_least(order: Seq<u32>, bounds: Seq<Aabb>, start: int, count: int)
    requires
        count >= 0,
    ensures
        is_least(bvh::slots_box(order, bounds, start, count), order, bounds, start, start + count),
{
    slots_box_is_around(order, bounds, start, count);
    corner_slots(order, bounds, start, count);
    let points = corners(order, bounds, start, count);
    let b = bvh::slots_box(order, bounds, start, count);
    assert forall|s: int| start <= s < start + count implies bvh::covers(
        b,
        bounds[#[trigger] order[s] as int],
    ) by {
        bvh::box_around_holds(points, 2 * (s - start));
        bvh::box_around_holds(points, 2 * (s - start) + 1);
    }
    if stand_somewhere(order, bounds, start, start + count) {
        numbered_corners(order, bounds, start, count, 0);
        numbered_corners(order, bounds, start, count, 1);
        numbered_corners(order, bounds, start, count, 2);
        assert forall|axis: u8| axis < 3 implies #[trigger] has_number(on_axis(points, axis)) by {
            assert(axis == 0 || axis == 1 || axis == 2);
        }
        assert forall|c: Aabb|
            #[trigger] all_covered(c, order, bounds, start, start + count) implies bvh::covers(
            c,
            b,
        ) by {
            assert forall|i: int| 0 <= i < points.len() implies bvh::holds(
                c,
                #[trigger] points[i],
            ) by {
                let s = start + i / 2;
                assert(bvh::covers(c, bounds[order[s] as int]));
                assert(i == 2 * (s - start) || i == 2 * (s - start) + 1);
            }
            box_around_is_least(points, c);
        }
    }
}

// ---- orders of slots -------------------------------------------------------

/// Whether two orders hold the same primitives in the slots of `[from, to)`, and agree on
/// the others.
pub open spec fn reordered(a: Seq<u32>, b: Seq<u32>, from: int, to: int) -> bool {
    bvh::shuffled(a, b, from, to) && bvh::shuffled(b, a, from, to)
}

proof fn stand_on(a: Seq<u32>, b: Seq<u32>, c: Seq<u32>, from: int, to: int, lo: int, hi: int)
    requires
        0 <= from <= lo <= hi <= to <= a.len(),
        reordered(a, b, from, to),
        reordered(b, c, lo, hi),
    ensures
        reordered(a, c, from, to),
{
    assert forall|s: int| from <= s < to implies bvh::stands_in(a, from, to, #[trigger] c[s]) by {
        let u = if lo <= s < hi {
            assert(bvh::stands_in(b, lo, hi, c[s]));
            choose|u: int| lo <= u < hi && #[trigger] b[u] == c[s]
        } else {
            s
        };
        assert(b[u] == c[s]);
        assert(bvh::stands_in(a, from, to, b[u]));
    }
    assert forall|s: int| from <= s < to implies bvh::stands_in(c, from, to, #[trigger] a[s]) by {
        assert(bvh::stands_in(b, from, to, a[s]));
        let u = choose|u: int| from <= u < to && #[trigger] b[u] == a[s];
        if lo <= u < hi {
            assert(bvh::stands_in(c, lo, hi, b[u]));
            let v = choose|v: int| lo <= v < hi && #[trigger] c[v] == b[u];
            assert(c[v] == a[s]);
        } else {
            assert(c[u] == a[s]);
        }
    }
    assert(c.len() == a.len());
    assert forall|s: int| 0 <= s < a.len() && !(from <= s < to) implies #[trigger] c[s] == a[s] by {
        assert(b[s] == a[s]);
    }
}

proof fn stays_ordered(a: Seq<u32>, from: int, to: int)
    requires
        0 <= from <= to <= a.len(),
    ensures
        reordered(a, a, from, to),
{
    assert forall|s: int| from <= s < to implies bvh::stands_in(a, from, to, #[trigger] a[s]) by {
        let p = a[s];
        assert(a[s] == p);
    }
}

proof fn exchange_reorders(a: Seq<u32>, i: int, j: int, from: int, to: int)
    requires
        0 <= from <= i < to,
        from <= j < to <= a.len(),
    ensures
        reordered(a, bvh::exchanged(a, i, j), from, to),
{
    let b = bvh::exchanged(a, i, j);
    assert forall|s: int| from <= s < to implies bvh::stands_in(a, from, to, #[trigger] b[s]) by {
        let u = if s == i {
            j
        } else if s == j {
            i
        } else {
            s
        };
        assert(a[u] == b[s]);
    }
    assert forall|s: int| from <= s < to implies bvh::stands_in(b, from, to, #[trigger] a[s]) by {
        let u = if s == i {
            j
        } else if s == j {
            i
        } else {
            s
        };
        assert(b[u] == a[s]);
    }
}

proof fn sifting_reorders(
    order: Seq<u32>,
    start: int,
    n: int,
    count: int,
    centroids: Seq<Vec3>,
    axis: u8,
    boundary: u64,
)
    requires
        0 <= start,
        0 <= n <= count,
        start + count <= order.len(),
    ensures
        reordered(
            order,
            bvh::sifted(order, start, n, centroids, axis, boundary).0,
            start,
            start + count,
        ),
        0 <= bvh::sifted(order, start, n, centroids, axis, boundary).1 <= n,
    decreases n,
{
    if n == 0 {
        stays_ordered(order, start, start + count);
    } else {
        sifting_reorders(order, start, n - 1, count, centroids, axis, boundary);
        let (o, i) = bvh::sifted(order, start, n - 1, centroids, axis, boundary);
        exchange_reorders(o, start + i, start + n - 1, start, start + count);
        stand_on(
            order,
            o,
            bvh::exchanged(o, start + i, start + n - 1),
            start,
            start + count,
            start,
            start + count,
        );
    }
}

proof fn least_reordered(
    b: Aabb,
    x: Seq<u32>,
    y: Seq<u32>,
    bounds: Seq<Aabb>,
    lo: int,
    hi: int,
    from: int,
    to: int,
)
    requires
        is_least(b, x, bounds, lo, hi),
        reordered(x, y, from, to),
        0 <= lo <= hi <= x.len(),
        (lo <= from && to <= hi) || to <= lo || hi <= from,
    ensures
        is_least(b, y, bounds, lo, hi),
{
    covered_reordered(b, x, y, bounds, lo, hi, from, to);
    if stand_somewhere(y, bounds, lo, hi) {
        numbered_reordered(y, x, bounds, lo, hi, from, to, 0);
        numbered_reordered(y, x, bounds, lo, hi, from, to, 1);
        numbered_reordered(y, x, bounds, lo, hi, from, to, 2);
        assert forall|c: Aabb| #[trigger] all_covered(c, y, bounds, lo, hi) implies bvh::covers(
            c,
            b,
        ) by {
            covered_reordered(c, y, x, bounds, lo, hi, from, to);
        }
    }
}

proof fn covered_reordered(
    c: Aabb,
    x: Seq<u32>,
    y: Seq<u32>,
    bounds: Seq<Aabb>,
    lo: int,
    hi: int,
    from: int,
    to: int,
)
    requires
        all_covered(c, x, bounds, lo, hi),
        bvh::shuffled(x, y, from, to),
        0 <= lo <= hi <= x.len(),
        (lo <= from && to <= hi) || to <= lo || hi <= from,
    ensures
        all_covered(c, y, bounds, lo, hi),
{
    assert forall|s: int| lo <= s < hi implies bvh::covers(c, bounds[#[trigger] y[s] as int]) by {
        if from <= s < to {
            assert(bvh::stands_in(x, from, to, y[s]));
            let t = choose|t: int| from <= t < to && #[trigger] x[t] == y[s];
            assert(bvh::covers(c, bounds[x[t] as int]));
        } else {
            assert(bvh::covers(c, bounds[x[s] as int]));
        }
    }
}

proof fn numbered_reordered(
    x: Seq<u32>,
    y: Seq<u32>,
    bounds: Seq<Aabb>,
    lo: int,
    hi: int,
    from: int,
    to: int,
    axis: u8,
)
    requires
        numbered(x, bounds, lo, hi, axis),
        bvh::shuffled(y, x, from, to),
        0 <= lo <= hi <= x.len(),
        (lo <= from && to <= hi) || to <= lo || hi <= from,
    ensures
        numbered(y, bounds, lo, hi, axis),
{
    let s = choose|s: int| lo <= s < hi && is_numbered(bounds[#[trigger] x[s] as int], axis);
    if from <= s < to {
        assert(bvh::stands_in(y, from, to, x[s]));
        let t = choose|t: int| from <= t < to && #[trigger] y[t] == x[s];
        assert(is_numbered(bounds[y[t] as int], axis));
    } else {
        assert(is_numbered(bounds[y[s] as int], axis));
    }
}

// ---- the nodes that are built ----------------------------------------------

/// Whether node `k` is one of the children of node `p`.
pub open spec fn is_child(b: BvhView, p: int, k: int) -> bool {
    &&& 0 <= p < b.nodes.len()
    &&& b.nodes[p].count == 0
    &&& b.nodes[p].first == k || b.nodes[p].first + 1 == k
}

/// Whether node `p` is a leaf that holds slot `s`.
pub open spec fn in_leaf(b: BvhView, p: int, s: int) -> bool {
    &&& 0 <= p < b.nodes.len()
    &&& b.nodes[p].count > 0
    &&& b.nodes[p].first <= s < b.nodes[p].first + b.nodes[p].count
}

/// Whether a node is `node` or one of those from `n` on.
pub open spec fn fresh(b: BvhView, n: int, node: int, p: int) -> bool {
    p == node || n <= p < b.nodes.len()
}

/// Whether a node stands over slots of `[start, end)`, as a leaf or with its children behind
/// the first `n` nodes, under the least box.
pub open spec fn is_set(b: BvhView, bounds: Seq<Aabb>, n: int, start: int, end: int, p: int) -> bool {
    let (lo, hi) = b.ranges[p];
    &&& start <= lo < hi <= end
    &&& if b.nodes[p].count > 0 {
        b.nodes[p].first == lo && b.nodes[p].first + b.nodes[p].count == hi
    } else {
        n <= b.nodes[p].first && b.nodes[p].first + 1 < b.nodes.len()
    }
    &&& is_least(b.nodes[p].bounds, b.order, bounds, lo, hi)
}

/// Whether the node has a parent among the fresh ones.
pub open spec fn has_parent(b: BvhView, n: int, node: int, k: int) -> bool {
    exists|p: int| fresh(b, n, node, p) && #[trigger] is_child(b, p, k)
}

/// Whether the slot stands in a leaf among the fresh ones.
pub open spec fn has_leaf(b: BvhView, n: int, node: int, s: int) -> bool {
    exists|p: int| fresh(b, n, node, p) && #[trigger] in_leaf(b, p, s)
}

/// What building the nodes below one does to a hierarchy.
spec fn grew(b: BvhView, r: BvhView, bounds: Seq<Aabb>, node: int, start: int, count: int) -> bool {
    let n = b.nodes.len() as int;
    &&& reordered(b.order, r.order, start, start + count)
    &&& n <= r.nodes.len() <= n + 2 * count - 2
    &&& r.ranges.len() == r.nodes.len()
    &&& forall|i: int| 0 <= i < n ==> #[trigger] r.ranges[i] == b.ranges[i]
    &&& forall|i: int| 0 <= i < n && i != node ==> #[trigger] r.nodes[i] == b.nodes[i]
    &&& forall|p: int|
        #[trigger] fresh(r, n, node, p) ==> is_set(r, bounds, n, start, start + count, p)
    &&& forall|k: int| n <= k < r.nodes.len() ==> #[trigger] has_parent(r, n, node, k)
    &&& forall|p: int, q: int, k: int|
        fresh(r, n, node, p) && fresh(r, n, node, q) && #[trigger] is_child(r, p, k)
            && #[trigger] is_child(r, q, k) ==> p == q
    &&& forall|s: int| start <= s < start + count ==> #[trigger] has_leaf(r, n, node, s)
    &&& forall|p: int, q: int, s: int|
        fresh(r, n, node, p) && fresh(r, n, node, q) && #[trigger] in_leaf(r, p, s)
            && #[trigger] in_leaf(r, q, s) ==> p == q
}

spec fn can_grow(b: BvhView, node: int, start: int, count: int) -> bool {
    &&& 0 <= start && 1 <= count && start + count <= b.order.len() <= 0x7fff_ffff
    &&& b.ranges.len() == b.nodes.len()
    &&& 0 <= node < b.nodes.len()
    &&& b.ranges[node] == (start, start + count)
    &&& b.nodes.len() + 2 * count - 2 <= u32::MAX
}

proof fn leaf_grew(
    b: BvhView,
    bounds: Seq<Aabb>,
    node: int,
    start: int,
    count: int,
    boxed: Aabb,
    order: Seq<u32>,
)
    requires
        can_grow(b, node, start, count),
        reordered(b.order, order, start, start + count),
        is_least(boxed, b.order, bounds, start, start + count),
    ensures
        grew(b, bvh::ended(b, node, start, count, boxed, order), bounds, node, start, count),
{
    let r = bvh::ended(b, node, start, count, boxed, order);
    let n = b.nodes.len() as int;
    least_reordered(
        boxed,
        b.order,
        order,
        bounds,
        start,
        start + count,
        start,
        start + count,
    );
    assert forall|s: int| start <= s < start + count implies #[trigger] has_leaf(r, n, node, s) by {
        assert(fresh(r, n, node, node));
        assert(in_leaf(r, node, s));
    }
}

/// The nodes of a subtree that is built stay as they are when slots beside it are moved and
/// nodes are added or changed elsewhere.
proof fn stays_set(
    b: BvhView,
    r: BvhView,
    bounds: Seq<Aabb>,
    n: int,
    m: int,
    start: int,
    mid: int,
    end: int,
    p: int,
)
    requires
        is_set(b, bounds, n, start, mid, p),
        0 <= start <= mid <= end <= b.order.len(),
        m <= n,
        b.nodes.len() <= r.nodes.len(),
        r.ranges[p] == b.ranges[p],
        r.nodes[p] == b.nodes[p],
        reordered(b.order, r.order, mid, end),
    ensures
        is_set(r, bounds, m, start, end, p),
{
    let (lo, hi) = b.ranges[p];
    least_reordered(b.nodes[p].bounds, b.order, r.order, bounds, lo, hi, mid, end);
}

/// An interior node whose children were built one after the other.
spec fn was_forked(
    b: BvhView,
    b1: BvhView,
    b2: BvhView,
    r: BvhView,
    bounds: Seq<Aabb>,
    node: int,
    start: int,
    count: int,
    boxed: Aabb,
    order: Seq<u32>,
    at: int,
) -> bool {
    let left = b.nodes.len() as int;
    &&& can_grow(b, node, start, count)
    &&& start < at < start + count
    &&& reordered(b.order, order, start, start + count)
    &&& is_least(boxed, b.order, bounds, start, start + count)
    &&& b1 == bvh::forked(b, node, start, count, boxed, order, at)
    &&& grew(b1, b2, bounds, left, start, at - start)
    &&& grew(b2, r, bounds, left + 1, at, start + count - at)
}

/// Which stage a fresh node of a fork belongs to: the node itself, the first child's subtree
/// or the second's.
proof fn stages(
    b: BvhView,
    b1: BvhView,
    b2: BvhView,
    r: BvhView,
    bounds: Seq<Aabb>,
    node: int,
    start: int,
    count: int,
    boxed: Aabb,
    order: Seq<u32>,
    at: int,
)
    requires
        was_forked(b, b1, b2, r, bounds, node, start, count, boxed, order, at),
    ensures
        ({
            let left = b.nodes.len() as int;
            let (n1, n2) = (b1.nodes.len() as int, b2.nodes.len() as int);
            &&& n1 == left + 2 && n1 <= n2 <= r.nodes.len()
            &&& r.nodes[node] == (Node { bounds: boxed, first: left as u32, count: 0 })
            &&& forall|p: int| #[trigger]
                fresh(r, left, node, p) ==> p == node || fresh(b2, n1, left, p) || fresh(
                    r,
                    n2,
                    left + 1,
                    p,
                )
            &&& forall|p: int| #[trigger]
                fresh(b2, n1, left, p) ==> p != node && fresh(r, left, node, p) && r.nodes[p]
                    == b2.nodes[p] && r.ranges[p] == b2.ranges[p] && 0 <= p < n2
            &&& forall|p: int| #[trigger]
                fresh(r, n2, left + 1, p) ==> p != node && fresh(r, left, node, p)
        }),
{
    let left = b.nodes.len() as int;
    assert(b1.nodes[node] == Node { bounds: boxed, first: left as u32, count: 0 });
    assert(b2.nodes[node] == b1.nodes[node]);
    assert(r.nodes[node] == b2.nodes[node]);
}

#[verifier::spinoff_prover]
#[verifier::rlimit(60)]
proof fn fork_is_set(
    b: BvhView,
    b1: BvhView,
    b2: BvhView,
    r: BvhView,
    bounds: Seq<Aabb>,
    node: int,
    start: int,
    count: int,
    boxed: Aabb,
    order: Seq<u32>,
    at: int,
)
    requires
        was_forked(b, b1, b2, r, bounds, node, start, count, boxed, order, at),
    ensures
        reordered(b.order, r.order, start, start + count),
        forall|p: int| #[trigger]
            fresh(r, b.nodes.len() as int, node, p) ==> is_set(
                r,
                bounds,
                b.nodes.len() as int,
                start,
                start + count,
                p,
            ),
{
    let left = b.nodes.len() as int;
    let (n1, n2) = (b1.nodes.len() as int, b2.nodes.len() as int);
    let end = start + count;
    stages(b, b1, b2, r, bounds, node, start, count, boxed, order, at);
    stand_on(b.order, b1.order, b2.order, start, end, start, at);
    stand_on(b.order, b2.order, r.order, start, end, at, end);
    least_reordered(boxed, b.order, r.order, bounds, start, end, start, end);
    assert forall|p: int| #[trigger] fresh(r, left, node, p) implies is_set(
        r,
        bounds,
        left,
        start,
        end,
        p,
    ) by {
        if p == node {
            assert(b1.ranges[node] == b.ranges[node]);
            assert(b2.ranges[node] == b1.ranges[node]);
            assert(r.ranges[node] == b2.ranges[node]);
        } else if fresh(b2, n1, left, p) {
            assert(is_set(b2, bounds, n1, start, at, p));
            stays_set(b2, r, bounds, n1, left, start, at, end, p);
        } else {
            assert(fresh(r, n2, left + 1, p));
            assert(is_set(r, bounds, n2, at, end, p));
        }
    }
}

#[verifier::spinoff_prover]
#[verifier::rlimit(60)]
proof fn fork_has_parents(
    b: BvhView,
    b1: BvhView,
    b2: BvhView,
    r: BvhView,
    bounds: Seq<Aabb>,
    node: int,
    start: int,
    count: int,
    boxed: Aabb,
    order: Seq<u32>,
    at: int,
)
    requires
        was_forked(b, b1, b2, r, bounds, node, start, count, boxed, order, at),
    ensures
        ({
            let n = b.nodes.len() as int;
            &&& forall|k: int| n <= k < r.nodes.len() ==> #[trigger] has_parent(r, n, node, k)
            &&& forall|p: int, q: int, k: int|
                fresh(r, n, node, p) && fresh(r, n, node, q) && #[trigger] is_child(r, p, k)
                    && #[trigger] is_child(r, q, k) ==> p == q
        }),
{
    let left = b.nodes.len() as int;
    let (n1, n2) = (b1.nodes.len() as int, b2.nodes.len() as int);
    stages(b, b1, b2, r, bounds, node, start, count, boxed, order, at);
    assert(fresh(r, left, node, node));
    assert forall|k: int| left <= k < r.nodes.len() implies #[trigger] has_parent(
        r,
        left,
        node,
        k,
    ) by {
        if k < n1 {
            assert(is_child(r, node, k));
        } else if k < n2 {
            assert(has_parent(b2, n1, left, k));
            let p = choose|p: int| fresh(b2, n1, left, p) && #[trigger] is_child(b2, p, k);
            assert(fresh(r, left, node, p));
            assert(is_child(r, p, k));
        } else {
            assert(has_parent(r, n2, left + 1, k));
            let p = choose|p: int| fresh(r, n2, left + 1, p) && #[trigger] is_child(r, p, k);
            assert(fresh(r, left, node, p));
        }
    }
    assert forall|p: int, q: int, k: int|
        fresh(r, left, node, p) && fresh(r, left, node, q) && #[trigger] is_child(r, p, k)
            && #[trigger] is_child(r, q, k) implies p == q by {
        child_of_stage(b, b1, b2, r, bounds, node, start, count, boxed, order, at, p, k);
        child_of_stage(b, b1, b2, r, bounds, node, start, count, boxed, order, at, q, k);
    }
}

/// The children of the fork stand behind it; those of its children's subtrees among the nodes
/// built for them.
proof fn child_of_stage(
    b: BvhView,
    b1: BvhView,
    b2: BvhView,
    r: BvhView,
    bounds: Seq<Aabb>,
    node: int,
    start: int,
    count: int,
    boxed: Aabb,
    order: Seq<u32>,
    at: int,
    p: int,
    k: int,
)
    requires
        was_forked(b, b1, b2, r, bounds, node, start, count, boxed, order, at),
        fresh(r, b.nodes.len() as int, node, p),
        is_child(r, p, k),
    ensures
        ({
            let left = b.nodes.len() as int;
            let (n1, n2) = (b1.nodes.len() as int, b2.nodes.len() as int);
            if k < n1 {
                p == node
            } else if k < n2 {
                fresh(b2, n1, left, p) && is_child(b2, p, k)
            } else {
                fresh(r, n2, left + 1, p)
            }
        }),
{
    let left = b.nodes.len() as int;
    let (n1, n2) = (b1.nodes.len() as int, b2.nodes.len() as int);
    stages(b, b1, b2, r, bounds, node, start, count, boxed, order, at);
    if p == node {
    } else if fresh(b2, n1, left, p) {
        assert(is_set(b2, bounds, n1, start, at, p));
    } else {
        assert(fresh(r, n2, left + 1, p));
        assert(is_set(r, bounds, n2, at, start + count, p));
    }
}

#[verifier::spinoff_prover]
#[verifier::rlimit(60)]
proof fn fork_has_leaves(
    b: BvhView,
    b1: BvhView,
    b2: BvhView,
    r: BvhView,
    bounds: Seq<Aabb>,
    node: int,
    start: int,
    count: int,
    boxed: Aabb,
    order: Seq<u32>,
    at: int,
)
    requires
        was_forked(b, b1, b2, r, bounds, node, start, count, boxed, order, at),
    ensures
        ({
            let n = b.nodes.len() as int;
            &&& forall|s: int| start <= s < start + count ==> #[trigger] has_leaf(r, n, node, s)
            &&& forall|p: int, q: int, s: int|
                fresh(r, n, node, p) && fresh(r, n, node, q) && #[trigger] in_leaf(r, p, s)
                    && #[trigger] in_leaf(r, q, s) ==> p == q
        }),
{
    let left = b.nodes.len() as int;
    let (n1, n2) = (b1.nodes.len() as int, b2.nodes.len() as int);
    stages(b, b1, b2, r, bounds, node, start, count, boxed, order, at);
    assert forall|s: int| start <= s < start + count implies #[trigger] has_leaf(
        r,
        left,
        node,
        s,
    ) by {
        if s < at {
            assert(has_leaf(b2, n1, left, s));
            let p = choose|p: int| fresh(b2, n1, left, p) && #[trigger] in_leaf(b2, p, s);
            assert(fresh(r, left, node, p));
            assert(in_leaf(r, p, s));
        } else {
            assert(has_leaf(r, n2, left + 1, s));
            let p = choose|p: int| fresh(r, n2, left + 1, p) && #[trigger] in_leaf(r, p, s);
            assert(fresh(r, left, node, p));
        }
    }
    assert forall|p: int, q: int, s: int|
        fresh(r, left, node, p) && fresh(r, left, node, q) && #[trigger] in_leaf(r, p, s)
            && #[trigger] in_leaf(r, q, s) implies p == q by {
        leaf_of_stage(b, b1, b2, r, bounds, node, start, count, boxed, order, at, p, s);
        leaf_of_stage(b, b1, b2, r, bounds, node, start, count, boxed, order, at, q, s);
    }
}

/// The leaves below a fork that hold a slot belong to the child whose slots those are.
proof fn leaf_of_stage(
    b: BvhView,
    b1: BvhView,
    b2: BvhView,
    r: BvhView,
    bounds: Seq<Aabb>,
    node: int,
    start: int,
    count: int,
    boxed: Aabb,
    order: Seq<u32>,
    at: int,
    p: int,
    s: int,
)
    requires
        was_forked(b, b1, b2, r, bounds, node, start, count, boxed, order, at),
        fresh(r, b.nodes.len() as int, node, p),
        in_leaf(r, p, s),
    ensures
        ({
            let left = b.nodes.len() as int;
            let (n1, n2) = (b1.nodes.len() as int, b2.nodes.len() as int);
            if s < at {
                fresh(b2, n1, left, p) && in_leaf(b2, p, s)
            } else {
                fresh(r, n2, left + 1, p)
            }
        }),
{
    let left = b.nodes.len() as int;
    let (n1, n2) = (b1.nodes.len() as int, b2.nodes.len() as int);
    stages(b, b1, b2, r, bounds, node, start, count, boxed, order, at);
    if p == node {
    } else if fresh(b2, n1, left, p) {
        assert(is_set(b2, bounds, n1, start, at, p));
    } else {
        assert(fresh(r, n2, left + 1, p));
        assert(is_set(r, bounds, n2, at, start + count, p));
    }
}

proof fn fork_grew(
    b: BvhView,
    b1: BvhView,
    b2: BvhView,
    r: BvhView,
    bounds: Seq<Aabb>,
    node: int,
    start: int,
    count: int,
    boxed: Aabb,
    order: Seq<u32>,
    at: int,
)
    requires
        was_forked(b, b1, b2, r, bounds, node, start, count, boxed, order, at),
    ensures
        grew(b, r, bounds, node, start, count),
{
    fork_is_set(b, b1, b2, r, bounds, node, start, count, boxed, order, at);
    fork_has_parents(b, b1, b2, r, bounds, node, start, count, boxed, order, at);
    fork_has_leaves(b, b1, b2, r, bounds, node, start, count, boxed, order, at);
    let n = b.nodes.len() as int;
    assert forall|i: int| 0 <= i < n implies #[trigger] r.ranges[i] == b.ranges[i] by {
        assert(b1.ranges[i] == b.ranges[i]);
        assert(b2.ranges[i] == b1.ranges[i]);
    }
    assert forall|i: int| 0 <= i < n && i != node implies #[trigger] r.nodes[i] == b.nodes[i] by {
        assert(b1.nodes[i] == b.nodes[i]);
        assert(b2.nodes[i] == b1.nodes[i]);
    }
}

#[verifier::spinoff_prover]
proof fn built_grew<F: Fn(Op, u64, u64) -> u64>(
    b: BvhView,
    bounds: Seq<Aabb>,
    centroids: Seq<Vec3>,
    f: F,
    node: int,
    start: int,
    count: int,
)
    requires
        can_grow(b, node, start, count),
    ensures
        grew(
            b,
            bvh::built(b, bounds, centroids, f, node, start, count),
            bounds,
            node,
            start,
            count,
        ),
    decreases count,
{
    reveal(bvh::built);
    let boxed = bvh::slots_box(b.order, bounds, start, count);
    let split = sah::best_split(f, bounds, centroids, b.order, start, count);
    let (order, at) = bvh::divided(b.order, start, count, centroids, split);
    slots_box_is_least(b.order, bounds, start, count);
    stays_ordered(b.order, start, start + count);
    if let bvh::Split::At { axis, boundary } = split {
        sifting_reorders(b.order, start, count, count, centroids, axis, boundary);
    }
    match at {
        Some(at) if start < at < start + count => {
            let left = b.nodes.len() as int;
            let b1 = bvh::forked(b, node, start, count, boxed, order, at);
            let b2 = bvh::built(b1, bounds, centroids, f, left, start, at - start);
            let r = bvh::built(b2, bounds, centroids, f, left + 1, at, start + count - at);
            assert(b1.ranges[left] == (start, at));
            assert(b1.ranges[left + 1] == (at, start + count));
            built_grew(b1, bounds, centroids, f, left, start, at - start);
            assert(b2.ranges[left + 1] == b1.ranges[left + 1]);
            built_grew(b2, bounds, centroids, f, left + 1, at, start + count - at);
            fork_grew(b, b1, b2, r, bounds, node, start, count, boxed, order, at);
        },
        _ => {
            leaf_grew(b, bounds, node, start, count, boxed, order);
        },
    }
}

spec fn first_view(bounds: Seq<Aabb>) -> BvhView {
    BvhView {
        nodes: seq![Node { bounds: nothing(), first: 0, count: 0 }],
        order: Seq::new(bounds.len(), |i: int| i as u32),
        ranges: seq![(0int, bounds.len() as int)],
    }
}

proof fn hierarchy_grew<F: Fn(Op, u64, u64) -> u64>(bounds: Seq<Aabb>, f: F)
    requires
        0 < bounds.len() <= 0x7fff_ffff,
    ensures
        grew(
            first_view(bounds),
            bvh::hierarchy_over(bounds, f),
            bounds,
            0,
            0,
            bounds.len() as int,
        ),
{
    built_grew(
        first_view(bounds),
        bounds,
        sah::middles(f, bounds),
        f,
        0,
        0,
        bounds.len() as int,
    );
}

// ---- laws ------------------------------------------------------------------

/// Every node of a hierarchy but the root is the child of one other, and of no more; the root
/// is the child of none.
pub proof fn nodes_have_one_parent<F: Fn(Op, u64, u64) -> u64>(bounds: Seq<Aabb>, f: F, k: int)
    requires
        bounds.len() <= 0x7fff_ffff,
        0 <= k < bvh::hierarchy_over(bounds, f).nodes.len(),
    ensures
        ({
            let h = bvh::hierarchy_over(bounds, f);
            &&& (exists|p: int| #[trigger] is_child(h, p, k)) <==> k > 0
            &&& forall|p: int, q: int| #[trigger]
                is_child(h, p, k) && #[trigger] is_child(h, q, k) ==> p == q
        }),
{
    let h = bvh::hierarchy_over(bounds, f);
    if bounds.len() > 0 {
        hierarchy_grew(bounds, f);
        assert forall|p: int| #[trigger] is_child(h, p, k) implies fresh(h, 1, 0, p) && k >= 1 by {
            assert(fresh(h, 1, 0, p));
            assert(is_set(h, bounds, 1, 0, bounds.len() as int, p));
        }
        if k > 0 {
            assert(has_parent(h, 1, 0, k));
            let p = choose|p: int| fresh(h, 1, 0, p) && #[trigger] is_child(h, p, k);
            assert(is_child(h, p, k));
        }
    }
}

/// Every slot of a hierarchy, and so every primitive, stands in one leaf, and in no more.
pub proof fn slots_stand_in_one_leaf<F: Fn(Op, u64, u64) -> u64>(bounds: Seq<Aabb>, f: F, s: int)
    requires
        bounds.len() <= 0x7fff_ffff,
        0 <= s < bounds.len(),
    ensures
        ({
            let h = bvh::hierarchy_over(bounds, f);
            &&& exists|p: int| #[trigger] in_leaf(h, p, s)
            &&& forall|p: int, q: int| #[trigger]
                in_leaf(h, p, s) && #[trigger] in_leaf(h, q, s) ==> p == q
        }),
{
    let h = bvh::hierarchy_over(bounds, f);
    hierarchy_grew(bounds, f);
    assert(has_leaf(h, 1, 0, s));
    let p = choose|p: int| fresh(h, 1, 0, p) && #[trigger] in_leaf(h, p, s);
    assert(in_leaf(h, p, s));
    assert forall|p: int, q: int| #[trigger] in_leaf(h, p, s) && #[trigger] in_leaf(h, q, s) implies p
        == q by {
        assert(fresh(h, 1, 0, p) && fresh(h, 1, 0, q));
    }
}

/// The box of each node is the least around the boxes of its primitives: it covers them, and
/// a box that does so covers it.
pub proof fn node_boxes_are_least<F: Fn(Op, u64, u64) -> u64>(bounds: Seq<Aabb>, f: F, i: int)
    requires
        bounds.len() <= 0x7fff_ffff,
        0 <= i < bvh::hierarchy_over(bounds, f).nodes.len(),
    ensures
        ({
            let h = bvh::hierarchy_over(bounds, f);
            is_least(h.nodes[i].bounds, h.order, bounds, h.ranges[i].0, h.ranges[i].1)
        }),
{
    if bounds.len() > 0 {
        hierarchy_grew(bounds, f);
        let h = bvh::hierarchy_over(bounds, f);
        assert(fresh(h, 1, 0, i));
    }
}

/// Whether on an axis a corner of one of the boxes is a number.
pub open spec fn some_numbered(bounds: Seq<Aabb>, axis: u8) -> bool {
    exists|i: int| 0 <= i < bounds.len() && is_numbered(#[trigger] bounds[i], axis)
}

/// The box of the root is the least around all boxes. Where no corner is a number on some
/// axis there is no least box.
pub proof fn root_box_is_least<F: Fn(Op, u64, u64) -> u64>(bounds: Seq<Aabb>, f: F, c: Aabb)
    requires
        0 < bounds.len() <= 0x7fff_ffff,
        some_numbered(bounds, 0) && some_numbered(bounds, 1) && some_numbered(bounds, 2),
        forall|i: int| 0 <= i < bounds.len() ==> bvh::covers(c, #[trigger] bounds[i]),
    ensures
        bvh::covers(c, bvh::hierarchy_over(bounds, f).nodes[0].bounds),
        forall|i: int|
            0 <= i < bounds.len() ==> bvh::covers(
                bvh::hierarchy_over(bounds, f).nodes[0].bounds,
                #[trigger] bounds[i],
            ),
{
    hierarchy_grew(bounds, f);
    let h = bvh::hierarchy_over(bounds, f);
    let n = bounds.len() as int;
    let order = first_view(bounds).order;
    assert(fresh(h, 1, 0, 0));
    assert(is_set(h, bounds, 1, 0, n, 0));
    assert(h.ranges[0] == first_view(bounds).ranges[0]);
    let root = h.nodes[0].bounds;
    least_reordered(root, h.order, order, bounds, 0, n, 0, n);
    assert forall|axis: u8| axis < 3 implies #[trigger] numbered(order, bounds, 0, n, axis) by {
        assert(some_numbered(bounds, axis));
        let i = choose|i: int| 0 <= i < bounds.len() && is_numbered(#[trigger] bounds[i], axis);
        assert(order[i] == i);
    }
    assert(all_covered(c, order, bounds, 0, n));
    assert forall|i: int| 0 <= i < bounds.len() implies bvh::covers(root, #[trigger] bounds[i]) by {
        assert(order[i] == i);
    }
}

} // verus!
