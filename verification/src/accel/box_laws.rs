//! Where rays are inside of boxes.

use crate::accel::bvh;
use crate::accel::bvh::Aabb;
use crate::arith;
use crate::arith::Op;
use crate::double;
use crate::math::matrix_laws;
use crate::math::{Vec3, ZERO};
use crate::rounding;
use vstd::arithmetic::power2::*;
use vstd::prelude::*;

verus! {

/// Whether a ray that starts at `o`, and goes one on in `i`, is between two heights at a time:
/// each height is reached at its distance times `i`, backwards where that is negative.
#[verifier::opaque]
pub open spec fn is_between(lo: int, hi: int, o: int, i: int, t: int) -> bool {
    ((lo - o) * i <= t && t <= (hi - o) * i) || ((hi - o) * i <= t && t <= (lo - o) * i)
}

/// Whether a ray is inside of a box at a time.
pub open spec fn is_inside(
    lo: (int, int, int),
    hi: (int, int, int),
    o: (int, int, int),
    i: (int, int, int),
    t: int,
) -> bool {
    &&& is_between(lo.0, hi.0, o.0, i.0, t)
    &&& is_between(lo.1, hi.1, o.1, i.1, t)
    &&& is_between(lo.2, hi.2, o.2, i.2, t)
}

/// Whether a vector has these whole numbers.
pub open spec fn is_at(v: Vec3, a: (int, int, int)) -> bool {
    matrix_laws::is_arrow(v, a.0, a.1, a.2, 0x10_0000)
}

/// The order of whole numbers is that of their doubles.
proof fn counts_are_ordered(a: u64, i: int, b: u64, j: int)
    requires
        matrix_laws::is_count(a, i) && matrix_laws::is_count(b, j),
    ensures
        double::below(a, b) <==> i < j,
        double::at_most(a, b) <==> i <= j,
        !double::is_nan(a) && !double::is_nan(b),
{
    rounding::order_tells(a, b);
    lemma_pow2_pos(1074);
    let w = pow2(1074) as int;
    assert(i * w < j * w <==> i < j) by (nonlinear_arith)
        requires
            w > 0,
    ;
    assert(i * w <= j * w <==> i <= j) by (nonlinear_arith)
        requires
            w > 0,
    ;
}

/// The times at which a ray is between two heights.
proof fn slabs_count<F: Fn(Op, u64, u64) -> u64>(
    f: F,
    lo: u64,
    l: int,
    hi: u64,
    h: int,
    origin: u64,
    o: int,
    inverse: u64,
    i: int,
) -> (r: (int, int))
    requires
        rounding::is_rounding(f),
        matrix_laws::is_count(lo, l) && matrix_laws::is_within(l, 0x10_0000),
        matrix_laws::is_count(hi, h) && matrix_laws::is_within(h, 0x10_0000),
        matrix_laws::is_count(origin, o) && matrix_laws::is_within(o, 0x10_0000),
        matrix_laws::is_count(inverse, i) && matrix_laws::is_within(i, 0x10_0000),
    ensures
        matrix_laws::is_count(bvh::slab(f, lo, hi, origin, inverse).0, r.0),
        matrix_laws::is_count(bvh::slab(f, lo, hi, origin, inverse).1, r.1),
        forall|t: int| r.0 <= t <= r.1 <==> #[trigger] is_between(l, h, o, i, t),
{
    reveal(is_between);
    matrix_laws::minus_counts(f, lo, l, origin, o);
    matrix_laws::minus_counts(f, hi, h, origin, o);
    matrix_laws::times_counts(f, arith::difference(f, lo, origin), l - o, inverse, i, 0x20_0000, 0x10_0000);
    matrix_laws::times_counts(f, arith::difference(f, hi, origin), h - o, inverse, i, 0x20_0000, 0x10_0000);
    let a = arith::product(f, arith::difference(f, lo, origin), inverse);
    let b = arith::product(f, arith::difference(f, hi, origin), inverse);
    counts_are_ordered(a, (l - o) * i, b, (h - o) * i);
    counts_are_ordered(b, (h - o) * i, a, (l - o) * i);
    if (l - o) * i <= (h - o) * i {
        ((l - o) * i, (h - o) * i)
    } else {
        ((h - o) * i, (l - o) * i)
    }
}

/// The later of two times.
proof fn later(a: u64, i: int, b: u64, j: int) -> (k: int)
    requires
        matrix_laws::is_count(a, i) && matrix_laws::is_count(b, j),
    ensures
        matrix_laws::is_count(double::greater(a, b), k),
        k >= i && k >= j && (k == i || k == j),
{
    counts_are_ordered(a, i, b, j);
    if i < j {
        j
    } else {
        i
    }
}

/// The earlier of two times.
proof fn earlier(a: u64, i: int, b: u64, j: int) -> (k: int)
    requires
        matrix_laws::is_count(a, i) && matrix_laws::is_count(b, j),
    ensures
        matrix_laws::is_count(double::lesser(a, b), k),
        k <= i && k <= j && (k == i || k == j),
{
    counts_are_ordered(b, j, a, i);
    if j < i {
        j
    } else {
        i
    }
}

/// Where a ray enters a box, by the times at which it is between the heights.
proof fn entries_count<F: Fn(Op, u64, u64) -> u64>(
    f: F,
    b: Aabb,
    origin: Vec3,
    inverse: Vec3,
    t_max: u64,
    x: (int, int),
    y: (int, int),
    z: (int, int),
    end: int,
) -> (r: (int, int))
    requires
        is_span(bvh::slab(f, b.min.x, b.max.x, origin.x, inverse.x), x),
        is_span(bvh::slab(f, b.min.y, b.max.y, origin.y, inverse.y), y),
        is_span(bvh::slab(f, b.min.z, b.max.z, origin.z, inverse.z), z),
        matrix_laws::is_count(t_max, end),
    ensures
        r.0 >= x.0 && r.0 >= y.0 && r.0 >= z.0 && (r.0 == x.0 || r.0 == y.0 || r.0 == z.0),
        r.1 <= x.1 && r.1 <= y.1 && r.1 <= z.1 && (r.1 == x.1 || r.1 == y.1 || r.1 == z.1),
        bvh::entry(f, b, origin, inverse, t_max) is Some <==> r.0 <= r.1 && 0 < r.1 && r.0 < end,
        bvh::entry(f, b, origin, inverse, t_max) matches Some(e) ==> matrix_laws::is_count(
            e,
            if r.0 > 0 {
                r.0
            } else {
                0
            },
        ),
{
    let p = bvh::slab(f, b.min.x, b.max.x, origin.x, inverse.x);
    let q = bvh::slab(f, b.min.y, b.max.y, origin.y, inverse.y);
    let s = bvh::slab(f, b.min.z, b.max.z, origin.z, inverse.z);
    let n0 = later(p.0, x.0, q.0, y.0);
    let n = later(double::greater(p.0, q.0), n0, s.0, z.0);
    let f0 = earlier(p.1, x.1, q.1, y.1);
    let m = earlier(double::lesser(p.1, q.1), f0, s.1, z.1);
    let first = double::greater(double::greater(p.0, q.0), s.0);
    let last = double::lesser(double::lesser(p.1, q.1), s.1);
    matrix_laws::small_counts();
    counts_are_ordered(first, n, last, m);
    counts_are_ordered(ZERO, 0, last, m);
    counts_are_ordered(first, n, t_max, end);
    counts_are_ordered(first, n, ZERO, 0);
    (n, m)
}

/// Whether two times are these whole numbers.
spec fn is_span(s: (u64, u64), x: (int, int)) -> bool {
    matrix_laws::is_count(s.0, x.0) && matrix_laws::is_count(s.1, x.1)
}

/// A ray that is inside of a box at a time, ahead of it and before the end, enters it, and not later
/// than that; and where it is said to enter it is inside of the box.
pub proof fn boxes_are_entered_before_what_is_inside<F: Fn(Op, u64, u64) -> u64>(
    f: F,
    b: Aabb,
    origin: Vec3,
    inverse: Vec3,
    t_max: u64,
    lo: (int, int, int),
    hi: (int, int, int),
    o: (int, int, int),
    i: (int, int, int),
    end: int,
    t: int,
)
    requires
        rounding::is_rounding(f),
        is_at(b.min, lo) && is_at(b.max, hi) && is_at(origin, o) && is_at(inverse, i),
        matrix_laws::is_count(t_max, end),
        0 < end,
    ensures
        is_inside(lo, hi, o, i, t) && 0 < t < end ==> bvh::entry(f, b, origin, inverse, t_max) is Some,
        bvh::entry(f, b, origin, inverse, t_max) matches Some(e) ==> exists|k: int|
            #[trigger] matrix_laws::is_count(e, k) && 0 <= k < end && is_inside(lo, hi, o, i, k) && (
            is_inside(lo, hi, o, i, t) && 0 <= t ==> k <= t),
{
    let x = slabs_count(f, b.min.x, lo.0, b.max.x, hi.0, origin.x, o.0, inverse.x, i.0);
    let y = slabs_count(f, b.min.y, lo.1, b.max.y, hi.1, origin.y, o.1, inverse.y, i.1);
    let z = slabs_count(f, b.min.z, lo.2, b.max.z, hi.2, origin.z, o.2, inverse.z, i.2);
    let (n, m) = entries_count(f, b, origin, inverse, t_max, x, y, z, end);
    let k = if n > 0 {
        n
    } else {
        0
    };
    assert(is_between(lo.0, hi.0, o.0, i.0, t) <==> x.0 <= t <= x.1);
    assert(is_between(lo.1, hi.1, o.1, i.1, t) <==> y.0 <= t <= y.1);
    assert(is_between(lo.2, hi.2, o.2, i.2, t) <==> z.0 <= t <= z.1);
    if bvh::entry(f, b, origin, inverse, t_max) is Some {
        assert(is_between(lo.0, hi.0, o.0, i.0, k));
        assert(is_between(lo.1, hi.1, o.1, i.1, k));
        assert(is_between(lo.2, hi.2, o.2, i.2, k));
        assert(matrix_laws::is_count(bvh::entry(f, b, origin, inverse, t_max)->0, k));
    }
}

} // verus!
