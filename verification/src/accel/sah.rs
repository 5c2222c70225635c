//! How the primitives of a node are divided: into bins along the axis on which their
//! centroids lie farthest apart, at the boundary between bins that costs least. A side
//! costs its surface area for each of its primitives. The box of an empty bin is turned
//! inside out, so a side that takes one in is unbounded and never the cheaper one.

use crate::accel::bvh;
use crate::accel::bvh::{Aabb, Split, INFINITY};
use crate::arith;
use crate::arith::{
    add_vectors, computes, count, minus, multiply_vector, over, plus, subtract_vectors, times, Op,
    TINY,
};
use crate::double;
use crate::math::{Vec3, HALF, ZERO};
use vstd::prelude::*;

verus! {

pub const BINS: usize = 16;

pub const TWO: u64 = 0x4000_0000_0000_0000;

/// A box grown to hold another.
pub open spec fn joined(a: Aabb, b: Aabb) -> Aabb {
    bvh::grown(bvh::grown(a, b.min), b.max)
}

/// The box that holds nothing.
pub open spec fn no_box() -> Aabb {
    bvh::box_around(seq![])
}

/// The middle of a box.
pub open spec fn box_middle<F: Fn(Op, u64, u64) -> u64>(f: F, b: Aabb) -> Vec3 {
    arith::vector_multiple(f, arith::vector_sum(f, b.min, b.max), HALF)
}

/// The middles of boxes.
pub open spec fn middles<F: Fn(Op, u64, u64) -> u64>(f: F, boxes: Seq<Aabb>) -> Seq<Vec3> {
    boxes.map_values(|b: Aabb| box_middle(f, b))
}

/// The middles of boxes.
pub fn find_middles<F: Fn(Op, u64, u64) -> u64>(boxes: &Vec<Aabb>, f: &F) -> (r: Vec<Vec3>)
    requires
        computes(*f),
    ensures
        r@ == middles(*f, boxes@),
{
    let n: usize = boxes.len();
    let mut out: Vec<Vec3> = Vec::new();
    let mut i: usize = 0;
    while i < n
        invariant
            i <= n == boxes@.len(),
            computes(*f),
            out@.len() == i,
            forall|k: int| 0 <= k < i ==> #[trigger] out@[k] == box_middle(*f, boxes@[k]),
        decreases n - i,
    {
        out.push(boxes[i].centroid(f));
        i += 1;
    }
    assert(out@ =~= middles(*f, boxes@));
    out
}

/// The surface area of a box; a box that is turned inside out has none.
pub open spec fn area<F: Fn(Op, u64, u64) -> u64>(f: F, b: Aabb) -> u64 {
    let d = arith::vector_difference(f, b.max, b.min);
    if double::below(d.x, ZERO) || double::below(d.y, ZERO) || double::below(d.z, ZERO) {
        ZERO
    } else {
        arith::product(
            f,
            TWO,
            arith::sum(
                f,
                arith::sum(f, arith::product(f, d.x, d.y), arith::product(f, d.y, d.z)),
                arith::product(f, d.z, d.x),
            ),
        )
    }
}

impl Aabb {
    /// The middle of the box.
    pub fn centroid<F: Fn(Op, u64, u64) -> u64>(&self, f: &F) -> (r: Vec3)
        requires
            computes(*f),
        ensures
            r == box_middle(*f, *self),
    {
        multiply_vector(f, add_vectors(f, self.min, self.max), HALF)
    }

    /// The surface area of the box.
    pub fn surface_area<F: Fn(Op, u64, u64) -> u64>(&self, f: &F) -> (r: u64)
        requires
            computes(*f),
        ensures
            r == area(*f, *self),
    {
        let d: Vec3 = subtract_vectors(f, self.max, self.min);
        if double::less(d.x, ZERO) || double::less(d.y, ZERO) || double::less(d.z, ZERO) {
            ZERO
        } else {
            times(
                f,
                TWO,
                plus(f, plus(f, times(f, d.x, d.y), times(f, d.y, d.z)), times(f, d.z, d.x)),
            )
        }
    }
}

/// The box around the centroids in the first `n` slots from `start` on.
pub open spec fn centroid_box(centroids: Seq<Vec3>, order: Seq<u32>, start: int, n: int) -> Aabb
    decreases n,
{
    if n <= 0 {
        no_box()
    } else {
        bvh::grown(
            centroid_box(centroids, order, start, n - 1),
            centroids[order[start + n - 1] as int],
        )
    }
}

/// The axis along which a box is longest.
pub open spec fn longest_axis(d: Vec3) -> u8 {
    if double::at_most(d.y, d.x) && double::at_most(d.z, d.x) {
        0
    } else if double::at_most(d.z, d.y) {
        1
    } else {
        2
    }
}

/// How bins are laid out: the axis, where the first begins, and how many there are to a
/// unit of length.
#[derive(Clone, Copy, Debug, PartialEq, Eq, Structural)]
pub struct Ruler {
    pub axis: u8,
    pub low: u64,
    pub scale: u64,
}

/// The bin of the primitive in a slot.
pub open spec fn slot_bin<F: Fn(Op, u64, u64) -> u64>(
    f: F,
    centroids: Seq<Vec3>,
    order: Seq<u32>,
    ruler: Ruler,
    slot: int,
) -> int {
    let c = bvh::component(centroids[order[slot] as int], ruler.axis);
    let k = double::cut_to(
        arith::product(f, arith::difference(f, c, ruler.low), ruler.scale),
        usize::MAX as nat,
    );
    if k < BINS {
        k as int
    } else {
        BINS - 1
    }
}

/// How many of the first `n` slots from `start` on belong to a bin.
pub open spec fn bin_count<F: Fn(Op, u64, u64) -> u64>(
    f: F,
    centroids: Seq<Vec3>,
    order: Seq<u32>,
    ruler: Ruler,
    start: int,
    n: int,
    bin: int,
) -> int
    decreases n,
{
    if n <= 0 {
        0
    } else {
        let before = bin_count(f, centroids, order, ruler, start, n - 1, bin);
        if slot_bin(f, centroids, order, ruler, start + n - 1) == bin {
            before + 1
        } else {
            before
        }
    }
}

/// The box around those of the first `n` slots from `start` on that belong to a bin.
pub open spec fn bin_box<F: Fn(Op, u64, u64) -> u64>(
    f: F,
    bounds: Seq<Aabb>,
    centroids: Seq<Vec3>,
    order: Seq<u32>,
    ruler: Ruler,
    start: int,
    n: int,
    bin: int,
) -> Aabb
    decreases n,
{
    if n <= 0 {
        no_box()
    } else {
        let before = bin_box(f, bounds, centroids, order, ruler, start, n - 1, bin);
        if slot_bin(f, centroids, order, ruler, start + n - 1) == bin {
            joined(before, bounds[order[start + n - 1] as int])
        } else {
            before
        }
    }
}

/// The box around the bins up to and with bin `i`.
pub open spec fn left_box(boxes: Seq<Aabb>, i: int) -> Aabb
    decreases i + 1,
{
    if i < 0 {
        no_box()
    } else {
        joined(left_box(boxes, i - 1), boxes[i])
    }
}

/// The box around the bins from bin `i` on.
pub open spec fn right_box(boxes: Seq<Aabb>, i: int) -> Aabb
    decreases BINS - i,
{
    if i >= BINS {
        no_box()
    } else {
        joined(right_box(boxes, i + 1), boxes[i])
    }
}

/// How many primitives are in the bins up to and with bin `i`.
pub open spec fn left_count(counts: Seq<usize>, i: int) -> int
    decreases i + 1,
{
    if i < 0 {
        0
    } else {
        left_count(counts, i - 1) + counts[i]
    }
}

/// What it costs to divide behind bin `i`.
pub open spec fn cost<F: Fn(Op, u64, u64) -> u64>(
    f: F,
    boxes: Seq<Aabb>,
    counts: Seq<usize>,
    total: int,
    i: int,
) -> u64 {
    arith::sum(
        f,
        arith::product(
            f,
            area(f, left_box(boxes, i)),
            arith::counted(left_count(counts, i)),
        ),
        arith::product(
            f,
            area(f, right_box(boxes, i + 1)),
            arith::counted(total - left_count(counts, i)),
        ),
    )
}

/// The cheapest of the first `n` places to divide at, and its cost; of equal ones the
/// first. Places that leave a side empty are none.
pub open spec fn cheapest<F: Fn(Op, u64, u64) -> u64>(
    f: F,
    boxes: Seq<Aabb>,
    counts: Seq<usize>,
    total: int,
    n: int,
) -> (u64, int)
    decreases n,
{
    if n <= 0 {
        (INFINITY, 0)
    } else {
        let before = cheapest(f, boxes, counts, total, n - 1);
        let left = left_count(counts, n - 1);
        let here = cost(f, boxes, counts, total, n - 1);
        if left == 0 || left == total || !double::below(here, before.0) {
            before
        } else {
            (here, n - 1)
        }
    }
}

/// The ruler for the slots of a node.
pub open spec fn ruler_of<F: Fn(Op, u64, u64) -> u64>(f: F, spread: Aabb) -> Ruler {
    let d = arith::vector_difference(f, spread.max, spread.min);
    let axis = longest_axis(d);
    Ruler {
        axis,
        low: bvh::component(spread.min, axis),
        scale: arith::quotient(f, arith::counted(BINS as int), bvh::component(d, axis)),
    }
}

/// How the primitives in `n` slots from `start` on are divided: in the middle where their
/// centroids coincide; at the cheapest place where that costs less than leaving them
/// together; else not at all.
#[verifier::opaque]
pub open spec fn best_split<F: Fn(Op, u64, u64) -> u64>(
    f: F,
    bounds: Seq<Aabb>,
    centroids: Seq<Vec3>,
    order: Seq<u32>,
    start: int,
    n: int,
) -> Split {
    let spread = centroid_box(centroids, order, start, n);
    let ruler = ruler_of(f, spread);
    let extent = bvh::component(
        arith::vector_difference(f, spread.max, spread.min),
        ruler.axis,
    );
    if !double::below(TINY, extent) {
        Split::Median
    } else {
        let boxes = Seq::new(
            BINS as nat,
            |b: int| bin_box(f, bounds, centroids, order, ruler, start, n, b),
        );
        let counts = Seq::new(
            BINS as nat,
            |b: int| bin_count(f, centroids, order, ruler, start, n, b) as usize,
        );
        let best = cheapest(f, boxes, counts, n, BINS - 1);
        let whole = arith::product(
            f,
            area(f, bvh::slots_box(order, bounds, start, n)),
            arith::counted(n),
        );
        if double::is_finite(best.0) && double::below(best.0, whole) {
            Split::At {
                axis: ruler.axis,
                boundary: arith::sum(
                    f,
                    ruler.low,
                    arith::quotient(
                        f,
                        arith::product(f, extent, arith::counted(best.1 + 1)),
                        arith::counted(BINS as int),
                    ),
                ),
            }
        } else {
            Split::Leaf
        }
    }
}

proof fn bin_count_bounds<F: Fn(Op, u64, u64) -> u64>(
    f: F,
    centroids: Seq<Vec3>,
    order: Seq<u32>,
    ruler: Ruler,
    start: int,
    n: int,
    bin: int,
)
    requires
        n >= 0,
    ensures
        0 <= bin_count(f, centroids, order, ruler, start, n, bin) <= n,
    decreases n,
{
    if n > 0 {
        bin_count_bounds(f, centroids, order, ruler, start, n - 1, bin);
    }
}

fn find_bin<F: Fn(Op, u64, u64) -> u64>(c: Vec3, ruler: &Ruler, f: &F) -> (r: usize)
    requires
        computes(*f),
    ensures
        r < BINS,
        forall|centroids: Seq<Vec3>, order: Seq<u32>, slot: int|
            centroids[order[slot] as int] == c ==> #[trigger] slot_bin(
                *f,
                centroids,
                order,
                *ruler,
                slot,
            ) == r,
{
    let v: u64 = times(f, minus(f, bvh::component_of(&c, ruler.axis), ruler.low), ruler.scale);
    let k: usize = double::to_usize(v);
    if k < BINS {
        k
    } else {
        BINS - 1
    }
}

/// Fills the bins.
fn fill_bins<F: Fn(Op, u64, u64) -> u64>(
    bounds: &Vec<Aabb>,
    centroids: &Vec<Vec3>,
    order: &Vec<u32>,
    ruler: &Ruler,
    start: usize,
    n: usize,
    f: &F,
) -> (r: (Vec<Aabb>, Vec<usize>))
    requires
        computes(*f),
        start + n <= order@.len(),
        bounds@.len() == centroids@.len(),
        forall|s: int|
            start <= s < start + n ==> (#[trigger] order@[s]) < bounds@.len(),
    ensures
        r.0@ == Seq::new(
            BINS as nat,
            |b: int| bin_box(*f, bounds@, centroids@, order@, *ruler, start as int, n as int, b),
        ),
        r.1@ == Seq::new(
            BINS as nat,
            |b: int|
                bin_count(*f, centroids@, order@, *ruler, start as int, n as int, b) as usize,
        ),
        forall|b: int|
            0 <= b < BINS ==> #[trigger] r.1@[b] == bin_count(
                *f,
                centroids@,
                order@,
                *ruler,
                start as int,
                n as int,
                b,
            ),
{
    let all: usize = order.len();
    let mut boxes: Vec<Aabb> = Vec::new();
    let mut counts: Vec<usize> = Vec::new();
    let mut b: usize = 0;
    while b < BINS
        invariant
            b <= BINS,
            boxes@.len() == b,
            counts@.len() == b,
            forall|k: int| 0 <= k < b ==> #[trigger] boxes@[k] == no_box(),
            forall|k: int| 0 <= k < b ==> #[trigger] counts@[k] == 0,
        decreases BINS - b,
    {
        boxes.push(Aabb::empty());
        counts.push(0);
        b += 1;
    }
    let mut i: usize = 0;
    while i < n
        invariant
            i <= n,
            computes(*f),
            all == order@.len(),
            start + n <= all,
            bounds@.len() == centroids@.len(),
            forall|s: int|
                start <= s < start + n ==> (#[trigger] order@[s]) < bounds@.len(),
            boxes@.len() == BINS,
            counts@.len() == BINS,
            forall|k: int|
                0 <= k < BINS ==> #[trigger] boxes@[k] == bin_box(
                    *f,
                    bounds@,
                    centroids@,
                    order@,
                    *ruler,
                    start as int,
                    i as int,
                    k,
                ),
            forall|k: int|
                0 <= k < BINS ==> #[trigger] counts@[k] == bin_count(
                    *f,
                    centroids@,
                    order@,
                    *ruler,
                    start as int,
                    i as int,
                    k,
                ),
        decreases n - i,
    {
        let p: usize = order[start + i] as usize;
        let c: Vec3 = centroids[p];
        let bin: usize = find_bin(c, ruler, f);
        assert(slot_bin(*f, centroids@, order@, *ruler, start + i) == bin);
        proof {
            bin_count_bounds(
                *f,
                centroids@,
                order@,
                *ruler,
                start as int,
                i as int,
                bin as int,
            );
        }
        let ghost boxes0 = boxes@;
        let ghost counts0 = counts@;
        let mut grown: Aabb = boxes[bin];
        grown.grow(&bounds[p]);
        let more: usize = counts[bin] + 1;
        boxes[bin] = grown;
        counts[bin] = more;
        assert forall|k: int| 0 <= k < BINS implies #[trigger] boxes@[k] == bin_box(
            *f,
            bounds@,
            centroids@,
            order@,
            *ruler,
            start as int,
            i + 1,
            k,
        ) by {
            assert(boxes0[k] == bin_box(
                *f,
                bounds@,
                centroids@,
                order@,
                *ruler,
                start as int,
                i as int,
                k,
            ));
        }
        assert forall|k: int| 0 <= k < BINS implies #[trigger] counts@[k] == bin_count(
            *f,
            centroids@,
            order@,
            *ruler,
            start as int,
            i + 1,
            k,
        ) by {
            assert(counts0[k] == bin_count(
                *f,
                centroids@,
                order@,
                *ruler,
                start as int,
                i as int,
                k,
            ));
        }
        i += 1;
    }
    assert(boxes@ =~= Seq::new(
        BINS as nat,
        |b: int| bin_box(*f, bounds@, centroids@, order@, *ruler, start as int, n as int, b),
    ));
    assert(counts@ =~= Seq::new(
        BINS as nat,
        |b: int| bin_count(*f, centroids@, order@, *ruler, start as int, n as int, b) as usize,
    ));
    (boxes, counts)
}

/// The bins hold no more primitives than there are.
proof fn left_count_bounds<F: Fn(Op, u64, u64) -> u64>(
    f: F,
    centroids: Seq<Vec3>,
    order: Seq<u32>,
    ruler: Ruler,
    start: int,
    n: int,
    counts: Seq<usize>,
    i: int,
)
    requires
        n >= 0,
        counts.len() == BINS,
        -1 <= i < BINS,
        forall|b: int|
            0 <= b < BINS ==> #[trigger] counts[b] == bin_count(
                f,
                centroids,
                order,
                ruler,
                start,
                n,
                b,
            ),
    ensures
        0 <= left_count(counts, i) <= n,
    decreases n,
{
    if n == 0 {
        zeros_add_up(counts, i);
    } else {
        let before = Seq::new(
            BINS as nat,
            |b: int| bin_count(f, centroids, order, ruler, start, n - 1, b) as usize,
        );
        assert forall|b: int| 0 <= b < BINS implies #[trigger] before[b] == bin_count(
            f,
            centroids,
            order,
            ruler,
            start,
            n - 1,
            b,
        ) by {
            bin_count_bounds(f, centroids, order, ruler, start, n - 1, b);
            bin_count_bounds(f, centroids, order, ruler, start, n, b);
            assert(counts[b] == bin_count(f, centroids, order, ruler, start, n, b));
        }
        left_count_bounds(f, centroids, order, ruler, start, n - 1, before, i);
        let k = slot_bin(f, centroids, order, ruler, start + n - 1);
        assert forall|b: int| 0 <= b < BINS implies #[trigger] counts[b] == before[b] + if b == k {
            1int
        } else {
            0int
        } by {
            assert(before[b] == bin_count(f, centroids, order, ruler, start, n - 1, b));
        }
        one_more(before, counts, k, i);
    }
}

proof fn zeros_add_up(counts: Seq<usize>, i: int)
    requires
        -1 <= i < counts.len(),
        forall|b: int| 0 <= b < counts.len() ==> #[trigger] counts[b] == 0,
    ensures
        left_count(counts, i) == 0,
    decreases i + 1,
{
    if i >= 0 {
        zeros_add_up(counts, i - 1);
        assert(counts[i] == 0);
    }
}

proof fn one_more(a: Seq<usize>, b: Seq<usize>, k: int, i: int)
    requires
        a.len() == b.len(),
        -1 <= i < a.len(),
        forall|j: int|
            0 <= j < a.len() ==> #[trigger] b[j] == a[j] + if j == k {
                1int
            } else {
                0int
            },
    ensures
        left_count(b, i) == left_count(a, i) + if 0 <= k <= i {
            1int
        } else {
            0int
        },
    decreases i + 1,
{
    if i >= 0 {
        one_more(a, b, k, i - 1);
        assert(b[i] == a[i] + if i == k {
            1int
        } else {
            0int
        });
    }
}

/// The boxes around the bins from each bin on.
fn sweep_right(boxes: &Vec<Aabb>) -> (r: Vec<Aabb>)
    requires
        boxes@.len() == BINS,
    ensures
        r@.len() == BINS,
        forall|i: int| 0 <= i < BINS ==> #[trigger] r@[i] == right_box(boxes@, i),
{
    let mut out: Vec<Aabb> = Vec::new();
    let mut b: usize = 0;
    while b < BINS
        invariant
            b <= BINS,
            out@.len() == b,
        decreases BINS - b,
    {
        out.push(Aabb::empty());
        b += 1;
    }
    let mut acc: Aabb = Aabb::empty();
    let mut i: usize = BINS;
    while i > 0
        invariant
            i <= BINS,
            boxes@.len() == BINS,
            out@.len() == BINS,
            acc == right_box(boxes@, i as int),
            forall|k: int| i <= k < BINS ==> #[trigger] out@[k] == right_box(boxes@, k),
        decreases i,
    {
        i -= 1;
        acc.grow(&boxes[i]);
        out[i] = acc;
    }
    out
}

/// How the primitives in `n` slots from `start` on are divided.
pub fn plan_split<F: Fn(Op, u64, u64) -> u64>(
    bounds: &Vec<Aabb>,
    centroids: &Vec<Vec3>,
    order: &Vec<u32>,
    start: usize,
    n: usize,
    f: &F,
) -> (r: Split)
    requires
        computes(*f),
        start + n <= order@.len(),
        bounds@.len() == centroids@.len(),
        forall|s: int|
            start <= s < start + n ==> (#[trigger] order@[s]) < bounds@.len(),
    ensures
        r == best_split(*f, bounds@, centroids@, order@, start as int, n as int),
{
    proof {
        reveal(best_split);
    }
    let all: usize = order.len();
    let mut spread: Aabb = Aabb::empty();
    let mut together: Aabb = Aabb::empty();
    let mut i: usize = 0;
    while i < n
        invariant
            i <= n,
            all == order@.len(),
            start + n <= all,
            bounds@.len() == centroids@.len(),
            forall|s: int|
                start <= s < start + n ==> (#[trigger] order@[s]) < bounds@.len(),
            spread == centroid_box(centroids@, order@, start as int, i as int),
            together == bvh::slots_box(order@, bounds@, start as int, i as int),
        decreases n - i,
    {
        let p: usize = order[start + i] as usize;
        spread.grow_point(&centroids[p]);
        together.grow(&bounds[p]);
        i += 1;
    }
    let d: Vec3 = subtract_vectors(f, spread.max, spread.min);
    let axis: u8 = if double::less_or_equal(d.y, d.x) && double::less_or_equal(d.z, d.x) {
        0
    } else if double::less_or_equal(d.z, d.y) {
        1
    } else {
        2
    };
    let extent: u64 = bvh::component_of(&d, axis);
    let low: u64 = bvh::component_of(&spread.min, axis);
    let ruler: Ruler = Ruler { axis, low, scale: over(f, count(BINS), extent) };
    assert(ruler == ruler_of(*f, spread));
    if !double::less(TINY, extent) {
        return Split::Median;
    }
    let (boxes, counts): (Vec<Aabb>, Vec<usize>) = fill_bins(
        bounds,
        centroids,
        order,
        &ruler,
        start,
        n,
        f,
    );
    let right: Vec<Aabb> = sweep_right(&boxes);
    let mut best: u64 = INFINITY;
    let mut place: usize = 0;
    let mut left: Aabb = Aabb::empty();
    let mut taken: usize = 0;
    let mut b: usize = 0;
    while b < BINS - 1
        invariant
            b <= BINS - 1,
            computes(*f),
            boxes@.len() == BINS,
            counts@.len() == BINS,
            right@.len() == BINS,
            forall|i: int| 0 <= i < BINS ==> #[trigger] right@[i] == right_box(boxes@, i),
            forall|b: int|
                0 <= b < BINS ==> #[trigger] counts@[b] == bin_count(
                    *f,
                    centroids@,
                    order@,
                    ruler,
                    start as int,
                    n as int,
                    b,
                ),
            left == left_box(boxes@, b - 1),
            taken == left_count(counts@, b - 1),
            taken <= n,
            place <= BINS - 2,
            (best, place as int) == cheapest(*f, boxes@, counts@, n as int, b as int),
        decreases BINS - 1 - b,
    {
        proof {
            left_count_bounds(
                *f,
                centroids@,
                order@,
                ruler,
                start as int,
                n as int,
                counts@,
                b as int,
            );
        }
        left.grow(&boxes[b]);
        taken = taken + counts[b];
        let rest: usize = n - taken;
        if taken != 0 && rest != 0 {
            let here: u64 = plus(
                f,
                times(f, left.surface_area(f), count(taken)),
                times(f, right[b + 1].surface_area(f), count(rest)),
            );
            assert(here == cost(*f, boxes@, counts@, n as int, b as int));
            if double::less(here, best) {
                best = here;
                place = b;
            }
        }
        b += 1;
    }
    let whole: u64 = times(f, together.surface_area(f), count(n));
    if double::finite(best) && double::less(best, whole) {
        Split::At {
            axis,
            boundary: plus(
                f,
                low,
                over(f, times(f, extent, count(place + 1)), count(BINS)),
            ),
        }
    } else {
        Split::Leaf
    }
}

} // verus!
