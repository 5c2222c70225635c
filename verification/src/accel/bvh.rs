//! Bounding volume hierarchy with a compact flat node array and stack-based
//! traversal. Generic over what lives in the leaves: callers provide
//! per-primitive bounds and say where to split, and hand queries that test one
//! box or one primitive to the traversals.

use crate::accel::sah;
use crate::accel::sah::{find_middles, plan_split};
use crate::arith;
use crate::arith::{computes, minus, times, Op};
use crate::double;
use crate::math::{Vec3, ZERO};
use vstd::prelude::*;

verus! {

/// Bits of positive and negative infinity.
pub const INFINITY: u64 = 0x7ff0_0000_0000_0000;

pub const NEG_INFINITY: u64 = 0xfff0_0000_0000_0000;

/// An axis-aligned box, by the bits of its corners.
#[derive(Clone, Copy, Debug, PartialEq, Eq, Structural)]
pub struct Aabb {
    pub min: Vec3,
    pub max: Vec3,
}

/// A box grown to hold a point.
pub open spec fn grown(b: Aabb, p: Vec3) -> Aabb {
    Aabb {
        min: Vec3::of(double::lesser(b.min.x, p.x), double::lesser(b.min.y, p.y), double::lesser(b.min.z, p.z)),
        max: Vec3::of(double::greater(b.max.x, p.x), double::greater(b.max.y, p.y), double::greater(b.max.z, p.z)),
    }
}

/// Whether the range from `lo` to `hi` holds `v`; a NaN stands nowhere.
pub open spec fn within(lo: u64, v: u64, hi: u64) -> bool {
    double::is_nan(v) || (double::at_most(lo, v) && double::at_most(v, hi))
}

/// Whether a box holds a point.
pub open spec fn holds(b: Aabb, p: Vec3) -> bool {
    within(b.min.x, p.x, b.max.x) && within(b.min.y, p.y, b.max.y) && within(b.min.z, p.z, b.max.z)
}

/// Whether a box holds both corners of another.
pub open spec fn covers(b: Aabb, c: Aabb) -> bool {
    holds(b, c.min) && holds(b, c.max)
}

/// A box grown to hold a point holds that point and all that it held.
pub proof fn grown_holds(b: Aabb, p: Vec3, q: Vec3)
    ensures
        holds(grown(b, p), p),
        holds(b, q) ==> holds(grown(b, p), q),
{
}

impl Aabb {
    /// The box that holds nothing.
    pub fn empty() -> (r: Aabb)
        ensures
            r.min == Vec3::of(INFINITY, INFINITY, INFINITY),
            r.max == Vec3::of(NEG_INFINITY, NEG_INFINITY, NEG_INFINITY),
    {
        Aabb {
            min: Vec3::new(INFINITY, INFINITY, INFINITY),
            max: Vec3::new(NEG_INFINITY, NEG_INFINITY, NEG_INFINITY),
        }
    }

    /// Grows the box to hold a point.
    pub fn grow_point(&mut self, p: &Vec3)
        ensures
            *final(self) == grown(*old(self), *p),
    {
        self.min = Vec3::new(
            double::smaller_of(self.min.x, p.x),
            double::smaller_of(self.min.y, p.y),
            double::smaller_of(self.min.z, p.z),
        );
        self.max = Vec3::new(
            double::larger_of(self.max.x, p.x),
            double::larger_of(self.max.y, p.y),
            double::larger_of(self.max.z, p.z),
        );
    }

    /// Grows the box to hold both corners of another.
    pub fn grow(&mut self, other: &Aabb)
        ensures
            *final(self) == grown(grown(*old(self), other.min), other.max),
            covers(*final(self), *other),
            forall|c: Aabb| covers(*old(self), c) ==> #[trigger] covers(*final(self), c),
    {
        proof {
            let g = grown(*self, other.min);
            grown_holds(*self, other.min, other.min);
            grown_holds(g, other.max, other.min);
            assert forall|c: Aabb| covers(*self, c) implies #[trigger] covers(
                grown(g, other.max),
                c,
            ) by {
                grown_holds(*self, other.min, c.min);
                grown_holds(*self, other.min, c.max);
                grown_holds(g, other.max, c.min);
                grown_holds(g, other.max, c.max);
            }
        }
        self.grow_point(&other.min);
        self.grow_point(&other.max);
    }

    /// The box around points.
    pub fn from_points(points: &Vec<Vec3>) -> (r: Aabb)
        ensures
            r == box_around(points@),
    {
        let mut b: Aabb = Aabb::empty();
        let mut i: usize = 0;
        assert(points@.subrange(0, 0) =~= seq![]);
        while i < points.len()
            invariant
                i <= points@.len(),
                b == box_around(points@.subrange(0, i as int)),
            decreases points@.len() - i,
        {
            b.grow_point(&points[i]);
            assert(points@.subrange(0, i + 1).drop_last() =~= points@.subrange(0, i as int));
            i += 1;
        }
        assert(points@.subrange(0, i as int) =~= points@);
        b
    }
}

/// Where a ray enters and leaves the slab of a box along one axis.
pub open spec fn slab<F: Fn(Op, u64, u64) -> u64>(
    f: F,
    lo: u64,
    hi: u64,
    origin: u64,
    inverse: u64,
) -> (u64, u64) {
    let a = arith::product(f, arith::difference(f, lo, origin), inverse);
    let b = arith::product(f, arith::difference(f, hi, origin), inverse);
    (double::lesser(a, b), double::greater(a, b))
}

/// Where a ray enters a box: where it has entered all three slabs and left none. None
/// where it does not, where the box lies behind it, or at `t_max` and beyond. `inverse` has
/// the reciprocals of its direction.
pub open spec fn entry<F: Fn(Op, u64, u64) -> u64>(
    f: F,
    b: Aabb,
    origin: Vec3,
    inverse: Vec3,
    t_max: u64,
) -> Option<u64> {
    let x = slab(f, b.min.x, b.max.x, origin.x, inverse.x);
    let y = slab(f, b.min.y, b.max.y, origin.y, inverse.y);
    let z = slab(f, b.min.z, b.max.z, origin.z, inverse.z);
    let near = double::greater(double::greater(x.0, y.0), z.0);
    let far = double::lesser(double::lesser(x.1, y.1), z.1);
    if double::at_most(near, far) && double::below(ZERO, far) && double::below(near, t_max) {
        Some(double::greater(near, ZERO))
    } else {
        None
    }
}

fn find_slab<F: Fn(Op, u64, u64) -> u64>(f: &F, lo: u64, hi: u64, origin: u64, inverse: u64) -> (r: (
    u64,
    u64,
))
    requires
        computes(*f),
    ensures
        r == slab(*f, lo, hi, origin, inverse),
{
    let a: u64 = times(f, minus(f, lo, origin), inverse);
    let b: u64 = times(f, minus(f, hi, origin), inverse);
    (double::smaller_of(a, b), double::larger_of(a, b))
}

impl Aabb {
    /// Where a ray enters the box before `t_max`.
    pub fn hit<F: Fn(Op, u64, u64) -> u64>(
        &self,
        origin: &Vec3,
        inv_dir: &Vec3,
        t_max: u64,
        f: &F,
    ) -> (r: Option<u64>)
        requires
            computes(*f),
        ensures
            r == entry(*f, *self, *origin, *inv_dir, t_max),
    {
        let x: (u64, u64) = find_slab(f, self.min.x, self.max.x, origin.x, inv_dir.x);
        let y: (u64, u64) = find_slab(f, self.min.y, self.max.y, origin.y, inv_dir.y);
        let z: (u64, u64) = find_slab(f, self.min.z, self.max.z, origin.z, inv_dir.z);
        let near: u64 = double::larger_of(double::larger_of(x.0, y.0), z.0);
        let far: u64 = double::smaller_of(double::smaller_of(x.1, y.1), z.1);
        if double::less_or_equal(near, far) && double::less(ZERO, far) && double::less(near, t_max) {
            Some(double::larger_of(near, ZERO))
        } else {
            None
        }
    }
}

/// The empty box grown by each point in turn.
pub open spec fn box_around(points: Seq<Vec3>) -> Aabb
    decreases points.len(),
{
    if points.len() == 0 {
        Aabb {
            min: Vec3::of(INFINITY, INFINITY, INFINITY),
            max: Vec3::of(NEG_INFINITY, NEG_INFINITY, NEG_INFINITY),
        }
    } else {
        grown(box_around(points.drop_last()), points.last())
    }
}

/// The box around points holds each of them.
pub proof fn box_around_holds(points: Seq<Vec3>, i: int)
    requires
        0 <= i < points.len(),
    ensures
        holds(box_around(points), points[i]),
    decreases points.len(),
{
    grown_holds(box_around(points.drop_last()), points.last(), points[i]);
    if i < points.len() - 1 {
        box_around_holds(points.drop_last(), i);
        assert(points.drop_last()[i] == points[i]);
    }
}

/// A node: the box around its primitives. An interior node has count 0 and its
/// children at `first` and `first + 1`; a leaf holds the primitives in the
/// `count` slots from `first` on.
#[derive(Clone, Copy, Debug, PartialEq, Eq, Structural)]
pub struct Node {
    pub bounds: Aabb,
    pub first: u32,
    pub count: u32,
}

/// How the primitives of a node are to be divided.
#[derive(Clone, Copy, Debug, PartialEq, Eq, Structural)]
pub enum Split {
    /// Not at all: a leaf is cheaper.
    Leaf,
    /// In the middle of their order.
    Median,
    /// Into those whose centroid lies below `boundary` on an axis, and the others.
    At { axis: u8, boundary: u64 },
}

/// Largest number of primitives that are never divided.
pub const MAX_LEAF: usize = 4;

/// Largest number of primitives that stay together where a leaf is cheaper.
pub const LARGE_LEAF: usize = 16;

/// A bounding volume hierarchy. Each node covers a range of slots.
pub struct Bvh {
    nodes: Vec<Node>,
    /// Primitive ids in leaf order.
    prim_order: Vec<u32>,
    ranges: Ghost<Seq<(int, int)>>,
}

/// What a hierarchy is: its nodes, the slots that each covers, and the primitive
/// in each slot.
#[verifier::ext_equal]
pub struct BvhView {
    pub nodes: Seq<Node>,
    pub order: Seq<u32>,
    pub ranges: Seq<(int, int)>,
}

impl View for Bvh {
    type V = BvhView;

    closed spec fn view(&self) -> BvhView {
        BvhView { nodes: self.nodes@, order: self.prim_order@, ranges: self.ranges@ }
    }
}

/// A leaf holds the slots of its range; the children of an interior node stand
/// behind it and divide its range.
pub open spec fn node_placed(b: BvhView, i: int) -> bool {
    let n = b.nodes[i];
    let (lo, hi) = b.ranges[i];
    &&& 0 <= lo < hi <= b.order.len()
    &&& if n.count > 0 {
        n.first == lo && n.count == hi - lo && n.count <= LARGE_LEAF
    } else {
        let c = n.first as int;
        &&& i < c
        &&& c + 1 < b.nodes.len()
        &&& b.ranges[c].0 == lo
        &&& b.ranges[c].1 == b.ranges[c + 1].0
        &&& b.ranges[c + 1].1 == hi
        &&& lo < b.ranges[c].1 < hi
    }
}

/// The box of a node covers the boxes of the primitives in its slots.
pub open spec fn node_covers(b: BvhView, bounds: Seq<Aabb>, i: int) -> bool {
    forall|s: int|
        b.ranges[i].0 <= s < b.ranges[i].1 ==> covers(
            b.nodes[i].bounds,
            bounds[#[trigger] b.order[s] as int],
        )
}

/// Every primitive stands in exactly one slot.
pub open spec fn is_order(order: Seq<u32>, n: int) -> bool {
    &&& order.len() == n
    &&& forall|s: int| 0 <= s < n ==> #[trigger] order[s] < n
    &&& forall|s: int, t: int| 0 <= s < t < n ==> #[trigger] order[s] != #[trigger] order[t]
}

/// Every primitive in one slot, and below the root a node for each range of slots,
/// down to small leaves.
pub open spec fn is_tree(b: BvhView) -> bool {
    &&& is_order(b.order, b.order.len() as int)
    &&& b.order.len() <= 0x7fff_ffff
    &&& b.nodes.len() <= 2 * b.order.len()
    &&& b.ranges.len() == b.nodes.len()
    &&& b.nodes.len() == 0 <==> b.order.len() == 0
    &&& b.nodes.len() > 0 ==> b.ranges[0] == (0int, b.order.len() as int)
    &&& forall|i: int| 0 <= i < b.nodes.len() ==> #[trigger] node_placed(b, i)
}

/// A hierarchy over primitives with these bounds: a tree over all of them in which
/// the box of each node covers its primitives.
pub open spec fn is_hierarchy(b: BvhView, bounds: Seq<Aabb>) -> bool {
    &&& is_tree(b)
    &&& b.order.len() == bounds.len()
    &&& forall|i: int| 0 <= i < b.nodes.len() ==> #[trigger] node_covers(b, bounds, i)
}

/// The slots in `[from, to)` hold what they held, in another order; the others are
/// untouched.
pub open spec fn shuffled(old_order: Seq<u32>, new_order: Seq<u32>, from: int, to: int) -> bool {
    &&& new_order.len() == old_order.len()
    &&& forall|s: int|
        0 <= s < old_order.len() && !(from <= s < to) ==> #[trigger] new_order[s] == old_order[s]
    &&& forall|s: int| from <= s < to ==> stands_in(old_order, from, to, #[trigger] new_order[s])
}

/// Whether a primitive stands in one of the slots in `[from, to)`.
pub open spec fn stands_in(order: Seq<u32>, from: int, to: int, p: u32) -> bool {
    exists|t: int| from <= t < to && #[trigger] order[t] == p
}

proof fn stands_at(order: Seq<u32>, from: int, to: int, t: int)
    requires
        from <= t < to,
    ensures
        stands_in(order, from, to, order[t]),
{
    let p = order[t];
    assert(order[t] == p);
}

/// The component of a vector on an axis.
pub open spec fn component(v: Vec3, axis: u8) -> u64 {
    if axis == 0 {
        v.x
    } else if axis == 1 {
        v.y
    } else {
        v.z
    }
}

/// The component of a vector along an axis.
pub fn component_of(v: &Vec3, axis: u8) -> (r: u64)
    ensures
        r == component(*v, axis),
{
    if axis == 0 {
        v.x
    } else if axis == 1 {
        v.y
    } else {
        v.z
    }
}

fn is_below(v: Vec3, axis: u8, boundary: u64) -> (r: bool)
    ensures
        r == double::below(component(v, axis), boundary),
{
    let c: u64 = if axis == 0 {
        v.x
    } else if axis == 1 {
        v.y
    } else {
        v.z
    };
    double::less(c, boundary)
}

proof fn shuffled_refl(order: Seq<u32>, from: int, to: int)
    requires
        0 <= from <= to <= order.len(),
    ensures
        shuffled(order, order, from, to),
{
    assert forall|s: int| from <= s < to implies stands_in(order, from, to, #[trigger] order[s]) by {
        stands_at(order, from, to, s);
    }
}

proof fn shuffled_twice(a: Seq<u32>, b: Seq<u32>, c: Seq<u32>, from: int, to: int, lo: int, hi: int)
    requires
        0 <= from <= lo <= hi <= to <= a.len(),
        shuffled(a, b, from, to),
        shuffled(b, c, lo, hi),
    ensures
        shuffled(a, c, from, to),
{
    assert forall|s: int| from <= s < to implies stands_in(a, from, to, #[trigger] c[s]) by {
        let u = if lo <= s < hi {
            assert(stands_in(b, lo, hi, c[s]));
            choose|u: int| lo <= u < hi && #[trigger] b[u] == c[s]
        } else {
            s
        };
        assert(b[u] == c[s]);
        assert(stands_in(a, from, to, b[u]));
    }
}

/// A box that covers the primitives of a range still does after slots inside that
/// range, or outside it, were shuffled.
proof fn covers_shuffled(b: BvhView, c: BvhView, bounds: Seq<Aabb>, i: int, lo: int, hi: int)
    requires
        0 <= i < b.nodes.len(),
        i < c.nodes.len(),
        b.nodes[i].bounds == c.nodes[i].bounds,
        b.ranges[i] == c.ranges[i],
        node_covers(b, bounds, i),
        shuffled(b.order, c.order, lo, hi),
        0 <= b.ranges[i].0 <= b.ranges[i].1 <= b.order.len(),
        (b.ranges[i].0 <= lo && hi <= b.ranges[i].1) || hi <= b.ranges[i].0 || b.ranges[i].1 <= lo,
    ensures
        node_covers(c, bounds, i),
{
    assert forall|s: int| c.ranges[i].0 <= s < c.ranges[i].1 implies covers(
        c.nodes[i].bounds,
        bounds[#[trigger] c.order[s] as int],
    ) by {
        if lo <= s < hi {
            assert(stands_in(b.order, lo, hi, c.order[s]));
            let t = choose|t: int| lo <= t < hi && #[trigger] b.order[t] == c.order[s];
            assert(covers(b.nodes[i].bounds, bounds[b.order[t] as int]));
        } else {
            assert(covers(b.nodes[i].bounds, bounds[b.order[s] as int]));
        }
    }
}

proof fn swap_shuffles(old_order: Seq<u32>, mid: Seq<u32>, i: int, j: int, from: int, to: int)
    requires
        shuffled(old_order, mid, from, to),
        is_order(mid, mid.len() as int),
        0 <= from <= i <= j < to <= mid.len(),
    ensures
        shuffled(old_order, mid.update(i, mid[j]).update(j, mid[i]), from, to),
        is_order(mid.update(i, mid[j]).update(j, mid[i]), mid.len() as int),
{
    let new_order = mid.update(i, mid[j]).update(j, mid[i]);
    assert forall|s: int| from <= s < to implies stands_in(
        old_order,
        from,
        to,
        #[trigger] new_order[s],
    ) by {
        let u = if s == i {
            j
        } else if s == j {
            i
        } else {
            s
        };
        assert(new_order[s] == mid[u]);
        assert(stands_in(old_order, from, to, mid[u]));
    }
}

/// In-place partition of the slots `[start, start + count)`: those below the
/// boundary first; how many they are.
fn partition(
    order: &mut Vec<u32>,
    start: usize,
    count: usize,
    centroids: &Vec<Vec3>,
    axis: u8,
    boundary: u64,
) -> (mid: usize)
    requires
        start + count <= old(order)@.len(),
        old(order)@.len() == centroids@.len(),
        is_order(old(order)@, centroids@.len() as int),
    ensures
        mid <= count,
        (final(order)@, mid as int) == sifted(
            old(order)@,
            start as int,
            count as int,
            centroids@,
            axis,
            boundary,
        ),
        is_order(final(order)@, centroids@.len() as int),
        shuffled(old(order)@, final(order)@, start as int, start + count),
        forall|s: int|
            start <= s < start + mid ==> double::below(
                component(centroids@[#[trigger] final(order)@[s] as int], axis),
                boundary,
            ),
        forall|s: int|
            start + mid <= s < start + count ==> !double::below(
                component(centroids@[#[trigger] final(order)@[s] as int], axis),
                boundary,
            ),
{
    let mut i: usize = 0;
    let mut j: usize = 0;
    let n: usize = order.len();
    proof {
        shuffled_refl(order@, start as int, start + count);
    }
    while j < count
        invariant
            i <= j <= count,
            n == order@.len(),
            start + count <= order@.len(),
            order@.len() == centroids@.len(),
            is_order(order@, centroids@.len() as int),
            shuffled(old(order)@, order@, start as int, start + count),
            (order@, i as int) == sifted(
                old(order)@,
                start as int,
                j as int,
                centroids@,
                axis,
                boundary,
            ),
            forall|s: int|
                start <= s < start + i ==> double::below(
                    component(centroids@[#[trigger] order@[s] as int], axis),
                    boundary,
                ),
            forall|s: int|
                start + i <= s < start + j ==> !double::below(
                    component(centroids@[#[trigger] order@[s] as int], axis),
                    boundary,
                ),
        decreases count - j,
    {
        let p: u32 = order[start + j];
        if is_below(centroids[p as usize], axis, boundary) {
            let q: u32 = order[start + i];
            proof {
                swap_shuffles(
                    old(order)@,
                    order@,
                    start + i,
                    start + j,
                    start as int,
                    start + count,
                );
            }
            let ghost sorted = order@;
            order.set(start + i, p);
            order.set(start + j, q);
            assert(order@ =~= exchanged(sorted, start + i, start + j));
            i += 1;
        }
        j += 1;
    }
    i
}

/// The order with what stands in two slots exchanged.
pub open spec fn exchanged(order: Seq<u32>, i: int, j: int) -> Seq<u32> {
    order.update(i, order[j]).update(j, order[i])
}

/// The order after the first `n` slots from `start` on were sifted, and how many of them
/// hold a primitive below the boundary: each of those goes behind those before it.
pub open spec fn sifted(
    order: Seq<u32>,
    start: int,
    n: int,
    centroids: Seq<Vec3>,
    axis: u8,
    boundary: u64,
) -> (Seq<u32>, int)
    decreases n,
{
    if n <= 0 {
        (order, 0)
    } else {
        let (o, i) = sifted(order, start, n - 1, centroids, axis, boundary);
        let p = o[start + n - 1];
        if double::below(component(centroids[p as int], axis), boundary) {
            (exchanged(o, start + i, start + n - 1), i + 1)
        } else {
            (o, i)
        }
    }
}

/// The order after a split of the slots of a node, and where the second child starts; a
/// leaf has none. Where the split would leave a child empty it is in the middle.
pub open spec fn divided(
    order: Seq<u32>,
    start: int,
    count: int,
    centroids: Seq<Vec3>,
    split: Split,
) -> (Seq<u32>, Option<int>) {
    let median = start + count / 2;
    if count <= MAX_LEAF {
        (order, None)
    } else {
        match split {
            Split::Leaf => if count <= LARGE_LEAF {
                (order, None)
            } else {
                (order, Some(median))
            },
            Split::Median => (order, Some(median)),
            Split::At { axis, boundary } => {
                let (o, mid) = sifted(order, start, count, centroids, axis, boundary);
                if 0 < mid < count {
                    (o, Some(start + mid))
                } else {
                    (o, Some(median))
                }
            },
        }
    }
}

/// The box around the boxes of the primitives in `count` slots.
pub open spec fn slots_box(order: Seq<u32>, bounds: Seq<Aabb>, start: int, count: int) -> Aabb
    decreases count,
{
    if count <= 0 {
        box_around(seq![])
    } else {
        let b = bounds[order[start + count - 1] as int];
        grown(grown(slots_box(order, bounds, start, count - 1), b.min), b.max)
    }
}

/// An interior node, and its two children to be built.
pub open spec fn forked(
    b: BvhView,
    node: int,
    start: int,
    count: int,
    boxed: Aabb,
    order: Seq<u32>,
    at: int,
) -> BvhView {
    let none = Node { bounds: box_around(seq![]), first: 0, count: 0 };
    let inner = Node { bounds: boxed, first: b.nodes.len() as u32, count: 0 };
    BvhView {
        nodes: b.nodes.update(node, inner).push(none).push(none),
        order,
        ranges: b.ranges.push((start, at)).push((at, start + count)),
    }
}

/// A leaf.
pub open spec fn ended(
    b: BvhView,
    node: int,
    start: int,
    count: int,
    boxed: Aabb,
    order: Seq<u32>,
) -> BvhView {
    let leaf = Node { bounds: boxed, first: start as u32, count: count as u32 };
    BvhView { nodes: b.nodes.update(node, leaf), order, ranges: b.ranges }
}

/// The hierarchy with the nodes below `node` built, over the slots
/// `[start, start + count)`.
#[verifier::opaque]
pub open spec fn built<F: Fn(Op, u64, u64) -> u64>(
    b: BvhView,
    bounds: Seq<Aabb>,
    centroids: Seq<Vec3>,
    f: F,
    node: int,
    start: int,
    count: int,
) -> BvhView
    decreases count,
{
    let boxed = slots_box(b.order, bounds, start, count);
    let split = sah::best_split(f, bounds, centroids, b.order, start, count);
    let (order, at) = divided(b.order, start, count, centroids, split);
    match at {
        Some(at) if start < at < start + count => {
            let left = b.nodes.len() as int;
            let b1 = forked(b, node, start, count, boxed, order, at);
            let b2 = built(b1, bounds, centroids, f, left, start, at - start);
            built(b2, bounds, centroids, f, left + 1, at, start + count - at)
        },
        _ => ended(b, node, start, count, boxed, order),
    }
}

/// The hierarchy over primitives with these boxes.
pub open spec fn hierarchy_over<F: Fn(Op, u64, u64) -> u64>(
    bounds: Seq<Aabb>,
    f: F,
) -> BvhView {
    let centroids = sah::middles(f, bounds);
    let order = Seq::new(bounds.len(), |i: int| i as u32);
    if bounds.len() == 0 {
        BvhView { nodes: seq![], order, ranges: seq![] }
    } else {
        let n = bounds.len() as int;
        let root = Node { bounds: box_around(seq![]), first: 0, count: 0 };
        let b = BvhView { nodes: seq![root], order, ranges: seq![(0int, n)] };
        built(b, bounds, centroids, f, 0, 0, n)
    }
}

/// A hierarchy being built.
struct Builder<'a> {
    bounds: &'a Vec<Aabb>,
    centroids: &'a Vec<Vec3>,
    nodes: Vec<Node>,
    order: Vec<u32>,
    ranges: Ghost<Seq<(int, int)>>,
}

impl<'a> View for Builder<'a> {
    type V = BvhView;

    closed spec fn view(&self) -> BvhView {
        BvhView { nodes: self.nodes@, order: self.order@, ranges: self.ranges@ }
    }
}

impl<'a> Builder<'a> {
    /// The slots, bounds and nodes fit together.
    spec fn consistent(&self) -> bool {
        &&& self.bounds@.len() == self.centroids@.len()
        &&& is_order(self.order@, self.bounds@.len() as int)
        &&& self.ranges@.len() == self.nodes@.len()
    }

    /// The box around the primitives in `[start, start + count)`.
    fn range_bounds(&self, start: usize, count: usize) -> (r: Aabb)
        requires
            self.consistent(),
            start + count <= self.order@.len(),
        ensures
            r == slots_box(self.order@, self.bounds@, start as int, count as int),
            forall|s: int|
                start <= s < start + count ==> covers(
                    r,
                    self.bounds@[#[trigger] self.order@[s] as int],
                ),
    {
        let mut b: Aabb = Aabb::empty();
        let n: usize = self.order.len();
        let mut i: usize = 0;
        while i < count
            invariant
                i <= count,
                n == self.order@.len(),
                start + count <= n,
                self.consistent(),
                b == slots_box(self.order@, self.bounds@, start as int, i as int),
                forall|s: int|
                    start <= s < start + i ==> covers(
                        b,
                        self.bounds@[#[trigger] self.order@[s] as int],
                    ),
            decreases count - i,
        {
            let p: u32 = self.order[start + i];
            b.grow(&self.bounds[p as usize]);
            i += 1;
        }
        b
    }

    /// Where the slots of a node are divided: where that costs least, in the middle where
    /// one side would be empty, or not at all.
    fn split_point<F: Fn(Op, u64, u64) -> u64>(
        &mut self,
        start: usize,
        count: usize,
        f: &F,
    ) -> (r: Option<usize>)
        requires
            old(self).consistent(),
            start + count <= old(self).order@.len(),
            count >= 1,
            computes(*f),
        ensures
            final(self).consistent(),
            final(self).bounds == old(self).bounds,
            final(self).centroids == old(self).centroids,
            final(self).nodes == old(self).nodes,
            final(self).ranges == old(self).ranges,
            shuffled(old(self).order@, final(self).order@, start as int, start + count),
            match r {
                Some(mid) => start < mid < start + count,
                None => count <= LARGE_LEAF,
            },
            ({
                let split = sah::best_split(
                    *f,
                    old(self).bounds@,
                    old(self).centroids@,
                    old(self).order@,
                    start as int,
                    count as int,
                );
                let (order, at) = divided(
                    old(self).order@,
                    start as int,
                    count as int,
                    old(self).centroids@,
                    split,
                );
                &&& final(self).order@ == order
                &&& r == match at {
                    Some(at) => Some(at as usize),
                    None => None,
                }
                &&& at matches Some(m) ==> start < m < start + count
            }),
    {
        proof {
            shuffled_refl(self.order@, start as int, start + count);
        }
        if count <= MAX_LEAF {
            return None;
        }
        let n: usize = self.order.len();
        let median: usize = start + count / 2;
        let split: Split = plan_split(
            self.bounds,
            self.centroids,
            &self.order,
            start,
            count,
            f,
        );
        match split {
            Split::Leaf => {
                if count <= LARGE_LEAF {
                    None
                } else {
                    Some(median)
                }
            },
            Split::Median => Some(median),
            Split::At { axis, boundary } => {
                let mid: usize = partition(
                    &mut self.order,
                    start,
                    count,
                    self.centroids,
                    axis,
                    boundary,
                );
                if mid > 0 && mid < count {
                    Some(start + mid)
                } else {
                    Some(median)
                }
            },
        }
    }

    /// Builds the hierarchy below a node over the slots `[start, start + count)`.
    #[verifier::spinoff_prover]
    #[verifier::rlimit(80)]
    fn subdivide<F: Fn(Op, u64, u64) -> u64>(
        &mut self,
        node: usize,
        start: usize,
        count: usize,
        f: &F,
    )
        requires
            old(self).consistent(),
            node < old(self).nodes@.len(),
            old(self).ranges@[node as int] == (start as int, start + count),
            count >= 1,
            start + count <= old(self).order@.len(),
            old(self).order@.len() <= 0x7fff_ffff,
            old(self).nodes@.len() + 2 * count - 2 <= 0xffff_ffff,
            computes(*f),
        ensures
            final(self).consistent(),
            final(self).bounds == old(self).bounds,
            final(self).centroids == old(self).centroids,
            old(self).nodes@.len() <= final(self).nodes@.len() <= old(self).nodes@.len() + 2 * count
                - 2,
            final(self)@ == built(
                old(self)@,
                old(self).bounds@,
                old(self).centroids@,
                *f,
                node as int,
                start as int,
                count as int,
            ),
            shuffled(old(self).order@, final(self).order@, start as int, start + count),
            forall|i: int|
                0 <= i < old(self).nodes@.len() && i != node ==> #[trigger] final(self).nodes@[i]
                    == old(self).nodes@[i],
            forall|i: int|
                0 <= i < old(self).nodes@.len() ==> #[trigger] final(self).ranges@[i] == old(
                    self,
                ).ranges@[i],
            node_placed(final(self)@, node as int),
            node_covers(final(self)@, final(self).bounds@, node as int),
            forall|i: int|
                old(self).nodes@.len() <= i < final(self).nodes@.len() ==> #[trigger] node_placed(
                    final(self)@,
                    i,
                ),
            forall|i: int|
                old(self).nodes@.len() <= i < final(self).nodes@.len() ==> #[trigger] node_covers(
                    final(self)@,
                    final(self).bounds@,
                    i,
                ),
            forall|i: int|
                old(self).nodes@.len() <= i < final(self).nodes@.len() ==> start <= (
                #[trigger] final(self).ranges@[i]).0 && final(self).ranges@[i].1 <= start + count,
        decreases count,
    {
        let ghost b0 = self@;
        let bounds: Aabb = self.range_bounds(start, count);
        let split: Option<usize> = self.split_point(start, count, f);
        let ghost order1 = self.order@;
        match split {
            None => {
                self.nodes.set(node, Node { bounds, first: start as u32, count: count as u32 });
                proof {
                    assert(self@ == built(
                        b0,
                        self.bounds@,
                        self.centroids@,
                        *f,
                        node as int,
                        start as int,
                        count as int,
                    )) by {
                        reveal(built);
                        assert(self@ =~= ended(
                            b0,
                            node as int,
                            start as int,
                            count as int,
                            bounds,
                            self.order@,
                        ));
                    }
                    let mid = BvhView { nodes: self.nodes@, ..b0 };
                    assert(node_covers(mid, self.bounds@, node as int));
                    covers_shuffled(
                        mid,
                        self@,
                        self.bounds@,
                        node as int,
                        start as int,
                        start + count,
                    );
                }
            },
            Some(at) => {
                let left: usize = self.nodes.len();
                self.nodes.set(node, Node { bounds, first: left as u32, count: 0 });
                self.nodes.push(Node { bounds: Aabb::empty(), first: 0, count: 0 });
                self.nodes.push(Node { bounds: Aabb::empty(), first: 0, count: 0 });
                proof {
                    self.ranges = Ghost(
                        self.ranges@.push((start as int, at as int)).push(
                            (at as int, start + count),
                        ),
                    );
                }
                let ghost b1 = self@;
                assert(b1 =~= forked(
                    b0,
                    node as int,
                    start as int,
                    count as int,
                    bounds,
                    order1,
                    at as int,
                ));
                proof {
                    let mid = BvhView { order: b0.order, ..b1 };
                    assert(node_covers(mid, self.bounds@, node as int));
                    covers_shuffled(
                        mid,
                        b1,
                        self.bounds@,
                        node as int,
                        start as int,
                        start + count,
                    );
                }
                self.subdivide(left, start, at - start, f);
                let ghost b2 = self@;
                self.subdivide(left + 1, at, start + count - at, f);
                proof {
                    let b3 = self@;
                    let end = start + count;
                    assert(b3 == built(
                        b0,
                        self.bounds@,
                        self.centroids@,
                        *f,
                        node as int,
                        start as int,
                        count as int,
                    )) by {
                        reveal(built);
                    }
                    shuffled_twice(
                        b0.order,
                        order1,
                        b2.order,
                        start as int,
                        end,
                        start as int,
                        at as int,
                    );
                    shuffled_twice(b0.order, b2.order, b3.order, start as int, end, at as int, end);
                    covers_shuffled(b1, b2, self.bounds@, node as int, start as int, at as int);
                    covers_shuffled(b2, b3, self.bounds@, node as int, at as int, end);
                    assert forall|i: int| left <= i < b3.nodes.len() implies #[trigger] node_placed(
                        b3,
                        i,
                    ) && node_covers(b3, self.bounds@, i) && start <= b3.ranges[i].0
                        && b3.ranges[i].1 <= end by {
                        if i == left || (left + 2 <= i < b2.nodes.len()) {
                            assert(node_placed(b2, i));
                            assert(b3.nodes[i] == b2.nodes[i]);
                            assert(b2.ranges[i].1 <= at);
                            covers_shuffled(b2, b3, self.bounds@, i, at as int, end);
                            if b2.nodes[i].count == 0 {
                                let c = b2.nodes[i].first as int;
                                assert(b3.nodes[c] == b2.nodes[c]);
                                assert(b3.nodes[c + 1] == b2.nodes[c + 1]);
                            }
                        } else {
                            assert(node_placed(b3, i));
                            assert(node_covers(b3, self.bounds@, i));
                        }
                    }
                    assert forall|i: int| left <= i < b3.nodes.len() implies #[trigger] node_covers(
                        b3,
                        self.bounds@,
                        i,
                    ) by {
                        assert(node_placed(b3, i));
                    }
                    assert forall|i: int| left <= i < b3.nodes.len() implies start <= (
                    #[trigger] b3.ranges[i]).0 && b3.ranges[i].1 <= end by {
                        assert(node_placed(b3, i));
                    }
                }
            },
        }
    }
}

impl Bvh {
    /// Build over per-primitive bounds. Empty input yields an empty hierarchy.
    pub fn build<F: Fn(Op, u64, u64) -> u64>(
        bounds: &Vec<Aabb>,
        f: &F,
    ) -> (r: Bvh)
        requires
            bounds@.len() <= 0x7fff_ffff,
            computes(*f),
        ensures
            r@ == hierarchy_over(bounds@, *f),
            is_hierarchy(r@, bounds@),
            bounds@.len() > 0 ==> r@.nodes.len() <= 2 * bounds@.len() - 1,
    {
        let n: usize = bounds.len();
        let mut order: Vec<u32> = Vec::new();
        let mut i: usize = 0;
        while i < n
            invariant
                i <= n <= 0x7fff_ffff,
                order@.len() == i,
                forall|s: int| 0 <= s < i ==> #[trigger] order@[s] == s,
            decreases n - i,
        {
            order.push(i as u32);
            i += 1;
        }
        if n == 0 {
            let ranges: Ghost<Seq<(int, int)>> = Ghost(Seq::empty());
            let r: Bvh = Bvh { nodes: Vec::new(), prim_order: order, ranges };
            assert(r@ =~= hierarchy_over(bounds@, *f));
            return r;
        }
        let mut nodes: Vec<Node> = Vec::new();
        nodes.push(Node { bounds: Aabb::empty(), first: 0, count: 0 });
        let ranges: Ghost<Seq<(int, int)>> = Ghost(Seq::empty().push((0int, n as int)));
        let centroids: Vec<Vec3> = find_middles(bounds, f);
        let mut builder = Builder { bounds, centroids: &centroids, nodes, order, ranges };
        proof {
            let first = Seq::new(bounds@.len(), |i: int| i as u32);
            let root = Node { bounds: box_around(seq![]), first: 0, count: 0 };
            let start = BvhView {
                nodes: seq![root],
                order: first,
                ranges: seq![(0int, bounds@.len() as int)],
            };
            assert(builder@ =~= start);
        }
        builder.subdivide(0, 0, n, f);
        let ghost b = builder@;
        let Builder { nodes, order, ranges, .. } = builder;
        let r: Bvh = Bvh { nodes, prim_order: order, ranges };
        proof {
            assert(r@ == b);
            assert forall|i: int| 0 <= i < b.nodes.len() implies #[trigger] node_placed(b, i) by {
                if i >= 1 {
                    assert(node_placed(b, i));
                }
            }
            assert forall|i: int| 0 <= i < b.nodes.len() implies #[trigger] node_covers(
                b,
                bounds@,
                i,
            ) by {
                if i >= 1 {
                    assert(node_covers(b, bounds@, i));
                }
            }
        }
        r
    }

    /// Whether there are no primitives.
    pub fn is_empty(&self) -> (r: bool)
        ensures
            r == (self@.nodes.len() == 0),
    {
        self.nodes.len() == 0
    }

    /// The number of nodes.
    pub fn node_count(&self) -> (r: usize)
        ensures
            r == self@.nodes.len(),
    {
        self.nodes.len()
    }

    /// Leaf-order primitive ids (for exporters that reorder primitive buffers into
    /// leaf order).
    pub fn prim_order(&self) -> (r: &[u32])
        ensures
            r@ == self@.order,
    {
        self.prim_order.as_slice()
    }

    /// The nodes in order, for export.
    pub fn node_views(&self) -> (r: &[Node])
        ensures
            r@ == self@.nodes,
    {
        self.nodes.as_slice()
    }

    /// The box around everything.
    pub fn root_bounds(&self) -> (r: Option<Aabb>)
        ensures
            r == if self@.nodes.len() > 0 { Some(self@.nodes[0].bounds) } else { None },
    {
        if self.nodes.len() > 0 {
            Some(self.nodes[0].bounds)
        } else {
            None
        }
    }
}

/// `a` is `b` or lies before it.
pub open spec fn no_farther(a: u64, b: u64) -> bool {
    a == b || double::below(a, b)
}

/// The slot was looked at for hits before `t`: its primitive was asked for a hit
/// before some bound and gave none before `t`, or a box around it was missed within
/// some bound; the bound lay no nearer than `t`.
pub open spec fn looked_at<
    H: Fn(Aabb, u64) -> Option<u64>,
    F: Fn(u32, u64) -> Option<u64>,
>(b: BvhView, hit_box: H, intersect_prim: F, t: u64, slot: int) -> bool {
    ||| exists|bound: u64, r: Option<u64>|
        {
            &&& #[trigger] intersect_prim.ensures((b.order[slot], bound), r)
            &&& no_farther(t, bound)
            &&& !(r is Some && double::below(r->0, t))
        }
    ||| exists|i: int, bound: u64|
        {
            &&& #[trigger] hit_box.ensures((b.nodes[i].bounds, bound), None)
            &&& 0 <= i < b.nodes.len()
            &&& b.ranges[i].0 <= slot < b.ranges[i].1
            &&& no_farther(t, bound)
        }
}

proof fn looked_at_nearer<H: Fn(Aabb, u64) -> Option<u64>, F: Fn(u32, u64) -> Option<u64>>(
    b: BvhView,
    hit_box: H,
    intersect_prim: F,
    t: u64,
    nearer: u64,
    slot: int,
)
    requires
        looked_at(b, hit_box, intersect_prim, t, slot),
        no_farther(nearer, t),
    ensures
        looked_at(b, hit_box, intersect_prim, nearer, slot),
{
    if exists|bound: u64, r: Option<u64>|
        {
            &&& #[trigger] intersect_prim.ensures((b.order[slot], bound), r)
            &&& no_farther(t, bound)
            &&& !(r is Some && double::below(r->0, t))
        } {
        let (bound, r) = choose|bound: u64, r: Option<u64>|
            {
                &&& #[trigger] intersect_prim.ensures((b.order[slot], bound), r)
                &&& no_farther(t, bound)
                &&& !(r is Some && double::below(r->0, t))
            };
        assert(intersect_prim.ensures((b.order[slot], bound), r));
        assert(no_farther(nearer, bound));
    } else {
        let (i, bound) = choose|i: int, bound: u64|
            {
                &&& #[trigger] hit_box.ensures((b.nodes[i].bounds, bound), None)
                &&& 0 <= i < b.nodes.len()
                &&& b.ranges[i].0 <= slot < b.ranges[i].1
                &&& no_farther(t, bound)
            };
        assert(hit_box.ensures((b.nodes[i].bounds, bound), None));
        assert(no_farther(nearer, bound));
    }
}

/// The slot lies under one of the nodes that are still to be visited.
pub open spec fn waits(b: BvhView, stack: Seq<u32>, slot: int) -> bool {
    exists|k: int|
        0 <= k < stack.len() && b.ranges[#[trigger] stack[k] as int].0 <= slot
            < b.ranges[stack[k] as int].1
}

/// Visits that the nodes on a stack can lead to.
spec fn visits(b: BvhView, stack: Seq<u32>) -> int
    decreases stack.len(),
{
    if stack.len() == 0 {
        0
    } else {
        let (lo, hi) = b.ranges[stack.last() as int];
        visits(b, stack.drop_last()) + 2 * (hi - lo) - 1
    }
}

proof fn visits_positive(b: BvhView, stack: Seq<u32>)
    requires
        is_tree(b),
        forall|k: int| 0 <= k < stack.len() ==> #[trigger] stack[k] < b.nodes.len(),
    ensures
        visits(b, stack) >= stack.len(),
    decreases stack.len(),
{
    if stack.len() > 0 {
        visits_positive(b, stack.drop_last());
        assert(stack[stack.len() - 1] < b.nodes.len());
        assert(node_placed(b, stack.last() as int));
    }
}

proof fn waits_pushed(b: BvhView, stack: Seq<u32>, node: u32, slot: int)
    ensures
        waits(b, stack.push(node), slot) <==> waits(b, stack, slot) || b.ranges[node as int].0
            <= slot < b.ranges[node as int].1,
{
    let more = stack.push(node);
    if waits(b, stack, slot) {
        let k = choose|k: int|
            0 <= k < stack.len() && b.ranges[#[trigger] stack[k] as int].0 <= slot
                < b.ranges[stack[k] as int].1;
        assert(more[k] == stack[k]);
    }
    if b.ranges[node as int].0 <= slot < b.ranges[node as int].1 {
        assert(more[stack.len() as int] == node);
    }
    if waits(b, more, slot) {
        let k = choose|k: int|
            0 <= k < more.len() && b.ranges[#[trigger] more[k] as int].0 <= slot
                < b.ranges[more[k] as int].1;
        if k < stack.len() {
            assert(stack[k] == more[k]);
        }
    }
}

/// Whether a primitive is one of the hierarchy.
pub open spec fn is_among(b: BvhView, prim: u32) -> bool {
    exists|slot: int| 0 <= slot < b.order.len() && #[trigger] b.order[slot] == prim
}

/// Where a search ended: at the hit that it returned, or at `t_max` where none is.
pub open spec fn reach(r: Option<(u32, u64)>, t_max: u64) -> u64 {
    match r {
        Some((_, t)) => t,
        None => t_max,
    }
}

/// The outcome of a search for the nearest hit before `t_max`: a hit is one that a
/// primitive of the hierarchy gave, before the bound that it was asked for; and every
/// slot was looked at for hits before the one that is returned, or before `t_max` where
/// none is.
pub open spec fn search_done<H: Fn(Aabb, u64) -> Option<u64>, F: Fn(u32, u64) -> Option<u64>>(
    b: BvhView,
    hit_box: H,
    intersect_prim: F,
    t_max: u64,
    r: Option<(u32, u64)>,
) -> bool {
    let t = reach(r, t_max);
    &&& (r matches Some((prim, found)) ==> is_among(b, prim) && given(
        intersect_prim,
        prim,
        found,
        t_max,
    ))
    &&& forall|slot: int|
        0 <= slot < b.order.len() ==> #[trigger] looked_at(b, hit_box, intersect_prim, t, slot)
}

/// A primitive gave this hit when it was asked for one before a bound that lies
/// beyond it and no farther than `t_max`.
pub open spec fn given<F: Fn(u32, u64) -> Option<u64>>(
    intersect_prim: F,
    prim: u32,
    t: u64,
    t_max: u64,
) -> bool {
    exists|bound: u64|
        {
            &&& #[trigger] intersect_prim.ensures((prim, bound), Some(t))
            &&& double::below(t, bound)
            &&& no_farther(bound, t_max)
        }
}

/// Every slot was asked about within `t_limit` and denied a hit, or lies in a box that
/// was missed.
pub open spec fn all_denied<H: Fn(Aabb, u64) -> Option<u64>, F: Fn(u32, u64) -> bool>(
    b: BvhView,
    hit_box: H,
    hit_prim: F,
    t_limit: u64,
    slot: int,
) -> bool {
    ||| hit_prim.ensures((b.order[slot], t_limit), false)
    ||| exists|i: int|
        {
            &&& hit_box.ensures(((#[trigger] b.nodes[i]).bounds, t_limit), None)
            &&& 0 <= i < b.nodes.len()
            &&& b.ranges[i].0 <= slot < b.ranges[i].1
        }
}

impl Bvh {
    /// Find the closest primitive hit before `t_max`. `hit_box` gives the distance at
    /// which a box is entered before a bound, `intersect_prim` a primitive's hit;
    /// the nearer child is visited first, and boxes farther than the best hit so far
    /// are not entered.
    pub fn traverse<H: Fn(Aabb, u64) -> Option<u64>, F: Fn(u32, u64) -> Option<u64>>(
        &self,
        t_max: u64,
        hit_box: &H,
        intersect_prim: &F,
    ) -> (r: Option<(u32, u64)>)
        requires
            is_tree(self@),
            forall|a: Aabb, t: u64| hit_box.requires((a, t)),
            forall|p: u32, t: u64|
                is_among(self@, p) ==> #[trigger] intersect_prim.requires((p, t)),
        ensures
            search_done(self@, *hit_box, *intersect_prim, t_max, r),
    {
        let ghost b = self@;
        if self.nodes.len() == 0 {
            return None;
        }
        let mut t: u64 = t_max;
        let mut best: Option<(u32, u64)> = None;
        let mut stack: Vec<u32> = Vec::new();
        stack.push(0);
        proof {
            assert(b.ranges[0] == (0int, b.order.len() as int));
            assert forall|slot: int| 0 <= slot < b.order.len() implies #[trigger] waits(
                b,
                stack@,
                slot,
            ) by {
                assert(stack@[0] == 0);
            }
        }
        while stack.len() > 0
            invariant
                b == self@,
                is_tree(b),
                forall|a: Aabb, t: u64| hit_box.requires((a, t)),
                forall|p: u32, t: u64|
                    is_among(b, p) ==> #[trigger] intersect_prim.requires((p, t)),
                forall|k: int| 0 <= k < stack@.len() ==> #[trigger] stack@[k] < b.nodes.len(),
                best is None ==> t == t_max,
                best matches Some((prim, found)) ==> t == found && is_among(b, prim) && given(
                    *intersect_prim,
                    prim,
                    found,
                    t_max,
                ) && double::below(t, t_max),
                forall|slot: int|
                    0 <= slot < b.order.len() ==> #[trigger] waits(b, stack@, slot) || looked_at(
                        b,
                        *hit_box,
                        *intersect_prim,
                        t,
                        slot,
                    ),
            decreases visits(b, stack@),
        {
            let ghost before = stack@;
            let top: u32 = stack.pop().unwrap();
            let ghost rest = stack@;
            proof {
                assert(before =~= rest.push(top));
                assert(before.drop_last() =~= rest);
                assert(before[before.len() - 1] == top);
                assert(node_placed(b, top as int));
                visits_positive(b, rest);
                assert forall|slot: int| 0 <= slot < b.order.len() implies #[trigger] waits(
                    b,
                    rest,
                    slot,
                ) || looked_at(b, *hit_box, *intersect_prim, t, slot) || b.ranges[top as int].0
                    <= slot < b.ranges[top as int].1 by {
                    waits_pushed(b, rest, top, slot);
                    assert(waits(b, before, slot) || looked_at(
                        b,
                        *hit_box,
                        *intersect_prim,
                        t,
                        slot,
                    ));
                }
            }
            let node: Node = self.nodes[top as usize];
            if hit_box(node.bounds, t).is_none() {
                assert(hit_box.ensures((b.nodes[top as int].bounds, t), None));
                continue;
            }
            if node.count > 0 {
                let mut i: u32 = node.first;
                let end: u32 = node.first + node.count;
                while i < end
                    invariant
                        b == self@,
                        is_tree(b),
                        forall|p: u32, t: u64|
                            is_among(b, p) ==> #[trigger] intersect_prim.requires((p, t)),
                        node.first <= i <= end,
                        b.ranges[top as int] == (node.first as int, end as int),
                        end <= b.order.len(),
                        best is None ==> t == t_max,
                        best matches Some((prim, found)) ==> t == found && is_among(b, prim) && given(
                            *intersect_prim,
                            prim,
                            found,
                            t_max,
                        ) && double::below(t, t_max),
                        forall|slot: int|
                            0 <= slot < b.order.len() ==> #[trigger] waits(b, rest, slot)
                                || looked_at(b, *hit_box, *intersect_prim, t, slot) || i <= slot
                                < end,
                    decreases end - i,
                {
                    let prim: u32 = self.prim_order[i as usize];
                    assert(b.order[i as int] == prim);
                    let ghost t0 = t;
                    let hit: Option<u64> = intersect_prim(prim, t);
                    assert(intersect_prim.ensures((b.order[i as int], t0), hit));
                    if let Some(found) = hit {
                        if double::less(found, t) {
                            t = found;
                            best = Some((prim, found));
                        }
                    }
                    proof {
                        assert(no_farther(t, t0));
                        assert(looked_at(b, *hit_box, *intersect_prim, t, i as int));
                        assert forall|slot: int| 0 <= slot < b.order.len() implies #[trigger] waits(
                            b,
                            rest,
                            slot,
                        ) || looked_at(b, *hit_box, *intersect_prim, t, slot) || i + 1 <= slot
                            < end by {
                            if looked_at(b, *hit_box, *intersect_prim, t0, slot) {
                                looked_at_nearer(b, *hit_box, *intersect_prim, t0, t, slot);
                            }
                        }
                    }
                    i += 1;
                }
            } else {
                let l: u32 = node.first;
                let r: u32 = l + 1;
                proof {
                    assert(node_placed(b, l as int));
                    assert(node_placed(b, r as int));
                }
                let dl: Option<u64> = hit_box(self.nodes[l as usize].bounds, t);
                let dr: Option<u64> = hit_box(self.nodes[r as usize].bounds, t);
                proof {
                    assert(hit_box.ensures((b.nodes[l as int].bounds, t), dl));
                    assert(hit_box.ensures((b.nodes[r as int].bounds, t), dr));
                    assert forall|slot: int|
                        b.ranges[top as int].0 <= slot < b.ranges[top as int].1 implies ({
                        ||| #[trigger] looked_at(b, *hit_box, *intersect_prim, t, slot)
                        ||| dl is Some && b.ranges[l as int].0 <= slot < b.ranges[l as int].1
                        ||| dr is Some && b.ranges[r as int].0 <= slot < b.ranges[r as int].1
                    }) by {
                        if slot < b.ranges[l as int].1 {
                            if dl is None {
                                assert(hit_box.ensures((b.nodes[l as int].bounds, t), None));
                            }
                        } else if dr is None {
                            assert(hit_box.ensures((b.nodes[r as int].bounds, t), None));
                        }
                    }
                }
                match (dl, dr) {
                    (Some(a), Some(c)) => {
                        let (near, far): (u32, u32) = if double::less_or_equal(a, c) {
                            (l, r)
                        } else {
                            (r, l)
                        };
                        stack.push(far);
                        let ghost one = stack@;
                        stack.push(near);
                        proof {
                            assert(one.drop_last() =~= rest);
                            assert(stack@.drop_last() =~= one);
                            assert(visits(b, one) < visits(b, before));
                            assert forall|slot: int|
                                0 <= slot < b.order.len() implies #[trigger] waits(b, stack@, slot)
                                || looked_at(b, *hit_box, *intersect_prim, t, slot) by {
                                waits_pushed(b, rest, far, slot);
                                waits_pushed(b, one, near, slot);
                            }
                        }
                    },
                    (Some(_), None) => {
                        stack.push(l);
                        proof {
                            assert(stack@.drop_last() =~= rest);
                            assert forall|slot: int|
                                0 <= slot < b.order.len() implies #[trigger] waits(b, stack@, slot)
                                || looked_at(b, *hit_box, *intersect_prim, t, slot) by {
                                waits_pushed(b, rest, l, slot);
                            }
                        }
                    },
                    (None, Some(_)) => {
                        stack.push(r);
                        proof {
                            assert(stack@.drop_last() =~= rest);
                            assert forall|slot: int|
                                0 <= slot < b.order.len() implies #[trigger] waits(b, stack@, slot)
                                || looked_at(b, *hit_box, *intersect_prim, t, slot) by {
                                waits_pushed(b, rest, r, slot);
                            }
                        }
                    },
                    (None, None) => {},
                }
            }
        }
        proof {
            assert forall|slot: int| 0 <= slot < b.order.len() implies #[trigger] looked_at(
                b,
                *hit_box,
                *intersect_prim,
                t,
                slot,
            ) by {
                assert(!waits(b, stack@, slot));
            }
        }
        best
    }

    /// Whether any primitive is hit within `t_limit` (shadow rays).
    pub fn any_hit<H: Fn(Aabb, u64) -> Option<u64>, F: Fn(u32, u64) -> bool>(
        &self,
        t_limit: u64,
        hit_box: &H,
        hit_prim: &F,
    ) -> (r: bool)
        requires
            is_tree(self@),
            forall|a: Aabb, t: u64| hit_box.requires((a, t)),
            forall|p: u32, t: u64| is_among(self@, p) ==> #[trigger] hit_prim.requires((p, t)),
        ensures
            r ==> exists|slot: int|
                0 <= slot < self@.order.len() && hit_prim.ensures(
                    (#[trigger] self@.order[slot], t_limit),
                    true,
                ),
            !r ==> forall|slot: int|
                0 <= slot < self@.order.len() ==> #[trigger] all_denied(
                    self@,
                    *hit_box,
                    *hit_prim,
                    t_limit,
                    slot,
                ),
    {
        let ghost b = self@;
        if self.nodes.len() == 0 {
            return false;
        }
        let mut stack: Vec<u32> = Vec::new();
        stack.push(0);
        proof {
            assert(b.ranges[0] == (0int, b.order.len() as int));
            assert forall|slot: int| 0 <= slot < b.order.len() implies #[trigger] waits(
                b,
                stack@,
                slot,
            ) by {
                assert(stack@[0] == 0);
            }
        }
        while stack.len() > 0
            invariant
                b == self@,
                is_tree(b),
                forall|a: Aabb, t: u64| hit_box.requires((a, t)),
                forall|p: u32, t: u64| is_among(b, p) ==> #[trigger] hit_prim.requires((p, t)),
                forall|k: int| 0 <= k < stack@.len() ==> #[trigger] stack@[k] < b.nodes.len(),
                forall|slot: int|
                    0 <= slot < b.order.len() ==> #[trigger] waits(b, stack@, slot) || all_denied(
                        b,
                        *hit_box,
                        *hit_prim,
                        t_limit,
                        slot,
                    ),
            decreases visits(b, stack@),
        {
            let ghost before = stack@;
            let top: u32 = stack.pop().unwrap();
            let ghost rest = stack@;
            proof {
                assert(before =~= rest.push(top));
                assert(before.drop_last() =~= rest);
                assert(before[before.len() - 1] == top);
                assert(node_placed(b, top as int));
                visits_positive(b, rest);
                assert forall|slot: int| 0 <= slot < b.order.len() implies #[trigger] waits(
                    b,
                    rest,
                    slot,
                ) || all_denied(b, *hit_box, *hit_prim, t_limit, slot) || b.ranges[top as int].0
                    <= slot < b.ranges[top as int].1 by {
                    waits_pushed(b, rest, top, slot);
                    assert(waits(b, before, slot) || all_denied(
                        b,
                        *hit_box,
                        *hit_prim,
                        t_limit,
                        slot,
                    ));
                }
            }
            let node: Node = self.nodes[top as usize];
            if hit_box(node.bounds, t_limit).is_none() {
                assert(hit_box.ensures((b.nodes[top as int].bounds, t_limit), None));
                continue;
            }
            if node.count > 0 {
                let mut i: u32 = node.first;
                let end: u32 = node.first + node.count;
                while i < end
                    invariant
                        b == self@,
                        forall|p: u32, t: u64|
                            is_among(b, p) ==> #[trigger] hit_prim.requires((p, t)),
                        node.first <= i <= end,
                        end <= b.order.len(),
                        forall|slot: int|
                            0 <= slot < b.order.len() ==> #[trigger] waits(b, rest, slot)
                                || all_denied(b, *hit_box, *hit_prim, t_limit, slot) || i <= slot
                                < end,
                    decreases end - i,
                {
                    let prim: u32 = self.prim_order[i as usize];
                    assert(b.order[i as int] == prim);
                    if hit_prim(prim, t_limit) {
                        assert(hit_prim.ensures((b.order[i as int], t_limit), true));
                        return true;
                    }
                    assert(all_denied(b, *hit_box, *hit_prim, t_limit, i as int));
                    i += 1;
                }
            } else {
                proof {
                    assert(node_placed(b, node.first as int));
                    assert(node_placed(b, node.first + 1));
                }
                stack.push(node.first);
                let ghost one = stack@;
                stack.push(node.first + 1);
                proof {
                    assert(one.drop_last() =~= rest);
                    assert(stack@.drop_last() =~= one);
                    assert(visits(b, one) < visits(b, before));
                    assert forall|slot: int| 0 <= slot < b.order.len() implies #[trigger] waits(
                        b,
                        stack@,
                        slot,
                    ) || all_denied(b, *hit_box, *hit_prim, t_limit, slot) by {
                        waits_pushed(b, rest, node.first, slot);
                        waits_pushed(b, one, (node.first + 1) as u32, slot);
                    }
                }
            }
        }
        proof {
            assert forall|slot: int| 0 <= slot < b.order.len() implies #[trigger] all_denied(
                b,
                *hit_box,
                *hit_prim,
                t_limit,
                slot,
            ) by {
                assert(!waits(b, stack@, slot));
            }
        }
        false
    }
}

/// Where each primitive has at most one hit, is asked only about hits before the
/// bound, and a box is missed only where nothing in it is hit before the bound, a
/// search finds a hit if and only if there is one before `t_max`, and finds the
/// nearest: what asking every primitive in turn would find.
pub proof fn search_finds_nearest<
    H: Fn(Aabb, u64) -> Option<u64>,
    F: Fn(u32, u64) -> Option<u64>,
>(
    b: BvhView,
    bounds: Seq<Aabb>,
    hit_box: H,
    intersect_prim: F,
    hits: spec_fn(u32) -> Option<u64>,
    t_max: u64,
    r: Option<(u32, u64)>,
)
    requires
        is_hierarchy(b, bounds),
        search_done(b, hit_box, intersect_prim, t_max, r),
        forall|p: u32, t: u64, a: Option<u64>| #[trigger]
            intersect_prim.ensures((p, t), a) ==> a == match hits(p) {
                Some(h) if double::below(h, t) => Some(h),
                _ => None,
            },
        forall|p: u32, around: Aabb, t: u64|
            #![trigger covers(around, bounds[p as int]), hit_box.ensures((around, t), None)]
            p < bounds.len() && covers(around, bounds[p as int]) && hit_box.ensures(
                (around, t),
                None,
            ) ==> !(hits(p) is Some && double::below(hits(p)->0, t)),
    ensures
        r matches Some((p, t)) ==> is_among(b, p) && hits(p) == Some(t) && double::below(t, t_max),
        r is None <==> forall|slot: int|
            0 <= slot < bounds.len() ==> {
                let h = #[trigger] hits(b.order[slot]);
                !(h is Some && double::below(h->0, t_max))
            },
        forall|slot: int|
            0 <= slot < bounds.len() ==> {
                let h = #[trigger] hits(b.order[slot]);
                !(h is Some && double::below(h->0, reach(r, t_max)))
            },
{
    let t = reach(r, t_max);
    assert forall|slot: int| 0 <= slot < bounds.len() implies {
        let h = #[trigger] hits(b.order[slot]);
        !(h is Some && double::below(h->0, t))
    } by {
        assert(looked_at(b, hit_box, intersect_prim, t, slot));
        let h = hits(b.order[slot]);
        if exists|bound: u64, r: Option<u64>|
            {
                &&& #[trigger] intersect_prim.ensures((b.order[slot], bound), r)
                &&& no_farther(t, bound)
                &&& !(r is Some && double::below(r->0, t))
            } {
        } else {
            let (i, bound) = choose|i: int, bound: u64|
                {
                    &&& #[trigger] hit_box.ensures((b.nodes[i].bounds, bound), None)
                    &&& 0 <= i < b.nodes.len()
                    &&& b.ranges[i].0 <= slot < b.ranges[i].1
                    &&& no_farther(t, bound)
                };
            assert(node_covers(b, bounds, i));
            assert(covers(b.nodes[i].bounds, bounds[b.order[slot] as int]));
            assert(hit_box.ensures((b.nodes[i].bounds, bound), None));
        }
    }
    if let Some((p, found)) = r {
        let slot = choose|slot: int| 0 <= slot < b.order.len() && #[trigger] b.order[slot] == p;
        assert(hits(b.order[slot]) == Some(found));
    }
}

} // verus!
