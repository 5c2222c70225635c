//! What the points of a subdivided cage are, in exact numbers: the weights of Catmull and Clark,
//! wherever the coordinates leave room for them.

use crate::arith;
use crate::arith::Op;
use crate::double;
use crate::geometry::placing;
use crate::geometry::placing::{EIGHTH, SIX};
use crate::geometry::subdiv;
use crate::geometry::subdiv::{CageView, Crease, EdgeKey, RuleView};
use crate::math::{Vec3, HALF, ONE, ZERO};
use crate::near;
use crate::rounding;
use vstd::arithmetic::power2::*;
use vstd::prelude::*;

verus! {

// ---- coordinates on a grid -------------------------------------------------

/// Whether a number is a whole number of steps, `most` at most, of a size.
pub open spec fn is_coarse(a: u64, u: nat, most: int) -> bool {
    exists|k: int| -most <= k <= most && #[trigger] rounding::is_step(a, k, u)
}

/// Whether the coordinates of a point are.
pub open spec fn on_grid(p: Vec3, u: nat, most: int) -> bool {
    is_coarse(p.x, u, most) && is_coarse(p.y, u, most) && is_coarse(p.z, u, most)
}


/// Two to the 48th: how many steps the coordinates of a cage may be.
pub const ROOM: u64 = 0x1_0000_0000_0000;

/// Whether a grid has finer and coarser ones beside it.
pub open spec fn is_grid(u: nat) -> bool {
    32 <= u <= 1900
}

/// Whether a number is `n` over `d` exactly.
pub open spec fn is_part(a: u64, n: int, d: int) -> bool {
    double::is_finite(a) && d * near::exact(a) == n
}

proof fn steps_tell(a: u64, u: nat, most: int) -> (k: int)
    requires
        is_coarse(a, u, most),
    ensures
        -most <= k <= most,
        rounding::is_step(a, k, u),
{
    let k = choose|k: int| -most <= k <= most && #[trigger] rounding::is_step(a, k, u);
    k
}

/// The constants of the rules.
pub proof fn constants_are_exact()
    ensures
        rounding::is_step(SIX, 6, 1074),
        rounding::is_step(EIGHTH, 1, 1071),
        rounding::is_step(HALF, 1, 1073),
        rounding::is_step(ONE, 1, 1074),
        rounding::is_step(placing::TWO, 2, 1074),
        rounding::is_step(placing::THREE, 3, 1074),
        rounding::is_step(ZERO, 0, 1074),
{
    lemma2_to64();
    lemma2_to64_rest();
    rounding::nought_and_one();
    assert(double::significand(SIX) == 6 * 0x4_0000_0000_0000);
    lemma_pow2_adds(50, 1024);
    assert(double::significand(EIGHTH) == 0x10_0000_0000_0000);
    lemma_pow2_adds(52, 1019);
    assert(double::significand(HALF) == 0x10_0000_0000_0000);
    lemma_pow2_adds(52, 1021);
    assert(double::significand(placing::TWO) == 2 * 0x8_0000_0000_0000);
    lemma_pow2_adds(51, 1023);
    assert(double::significand(placing::THREE) == 3 * 0x8_0000_0000_0000);
    assert(6 * 0x4_0000_0000_0000 * pow2(1024) == 6 * (0x4_0000_0000_0000 * pow2(1024)))
        by (nonlinear_arith);
    assert(2 * 0x8_0000_0000_0000 * pow2(1023) == 2 * (0x8_0000_0000_0000 * pow2(1023)))
        by (nonlinear_arith);
    assert(3 * 0x8_0000_0000_0000 * pow2(1023) == 3 * (0x8_0000_0000_0000 * pow2(1023)))
        by (nonlinear_arith);
    assert(0 * pow2(1074) == 0);
}

// ---- single coordinates ----------------------------------------------------

/// Six of one number and one of each of two others, over eight.
proof fn crease_number<F: Fn(Op, u64, u64) -> u64>(f: F, p: u64, a: u64, b: u64, u: nat)
    requires
        rounding::is_rounding(f),
        is_grid(u),
        is_coarse(p, u, ROOM as int),
        is_coarse(a, u, ROOM as int),
        is_coarse(b, u, ROOM as int),
    ensures
        is_part(
            arith::product(
                f,
                arith::sum(f, arith::sum(f, arith::product(f, p, SIX), a), b),
                EIGHTH,
            ),
            6 * near::exact(p) + near::exact(a) + near::exact(b),
            8,
        ),
{
    constants_are_exact();
    let (i, j, k) = (
        steps_tell(p, u, ROOM as int),
        steps_tell(a, u, ROOM as int),
        steps_tell(b, u, ROOM as int),
    );
    rounding::product_of_steps(f, p, i, u, SIX, 6, 1074);
    let six = arith::product(f, p, SIX);
    rounding::sum_of_steps(f, six, i * 6, a, j, u);
    let two = arith::sum(f, six, a);
    rounding::sum_of_steps(f, two, i * 6 + j, b, k, u);
    let all = arith::sum(f, two, b);
    let n = i * 6 + j + k;
    assert(n * 1 == n);
    rounding::product_of_steps(f, all, n, u, EIGHTH, 1, 1071);
    let w = (u - 3) as nat;
    lemma_pow2_adds(3, w);
    lemma2_to64();
    let (x, y) = (pow2(u) as int, pow2(w) as int);
    assert(8 * (n * y) == n * (8 * y)) by (nonlinear_arith);
    assert(n * x == 6 * (i * x) + j * x + k * x) by (nonlinear_arith)
        requires
            n == i * 6 + j + k,
    ;
}

/// The mean of two numbers.
proof fn middle_number<F: Fn(Op, u64, u64) -> u64>(f: F, a: u64, b: u64, u: nat)
    requires
        rounding::is_rounding(f),
        is_grid(u),
        is_coarse(a, u, ROOM as int),
        is_coarse(b, u, ROOM as int),
    ensures
        is_part(
            arith::product(f, arith::sum(f, a, b), HALF),
            near::exact(a) + near::exact(b),
            2,
        ),
        is_coarse(arith::product(f, arith::sum(f, a, b), HALF), (u - 1) as nat, 2 * ROOM as int),
{
    constants_are_exact();
    let (i, j) = (steps_tell(a, u, ROOM as int), steps_tell(b, u, ROOM as int));
    rounding::sum_of_steps(f, a, i, b, j, u);
    let n = i + j;
    assert(n * 1 == n);
    rounding::product_of_steps(f, arith::sum(f, a, b), n, u, HALF, 1, 1073);
    let w = (u - 1) as nat;
    lemma_pow2_adds(1, w);
    lemma2_to64();
    let (x, y) = (pow2(u) as int, pow2(w) as int);
    assert(2 * (n * y) == n * (2 * y)) by (nonlinear_arith);
    assert(n * x == i * x + j * x) by (nonlinear_arith)
        requires
            n == i + j,
    ;
}

/// Part of the way from one number to another.
proof fn way_number<F: Fn(Op, u64, u64) -> u64>(f: F, a: u64, b: u64, t: u64, u: nat, v: nat)
    requires
        rounding::is_rounding(f),
        is_grid(u),
        1054 <= v <= 1074,
        is_coarse(a, u, 0x100_0000),
        is_coarse(b, u, 0x100_0000),
        is_coarse(t, v, 0x10_0000),
    ensures
        ({
            let r = arith::sum(f, a, arith::product(f, arith::difference(f, b, a), t));
            double::is_finite(r) && rounding::whole() * near::exact(r) == near::exact(a) * (
            rounding::whole() - near::exact(t)) + near::exact(b) * near::exact(t)
        }),
{
    let i = steps_tell(a, u, 0x100_0000);
    let j = steps_tell(b, u, 0x100_0000);
    let k = steps_tell(t, v, 0x10_0000);
    rounding::difference_of_steps(f, b, j, a, i, u);
    let d = arith::difference(f, b, a);
    let e = j - i;
    assert(-0x20_0000_0000_0000 < e * k < 0x20_0000_0000_0000) by (nonlinear_arith)
        requires
            -0x200_0000 <= e <= 0x200_0000,
            -0x10_0000 <= k <= 0x10_0000,
    ;
    let w = (u + v - 1074) as nat;
    rounding::product_of_steps(f, d, e, u, t, k, v);
    let g = (1074 - v) as nat;
    lemma_pow2_adds(w, g);
    let (x, y, z) = (pow2(u) as int, pow2(w) as int, pow2(g) as int);
    lemma_pow2_pos(g);
    lemma_pow2_adds(v, g);
    let pv = pow2(v) as int;
    // The first number in finer steps.
    lemma2_to64();
    if g < 20 {
        lemma_pow2_strictly_increases(g, 20);
    }
    assert(1 <= z <= 0x10_0000);
    let m = i * z;
    assert(-0x1000_0000_0000 <= m <= 0x1000_0000_0000) by (nonlinear_arith)
        requires
            m == i * z,
            -0x100_0000 <= i <= 0x100_0000,
            1 <= z <= 0x10_0000,
    ;
    assert(-0x2000_0000_0000 <= e * k <= 0x2000_0000_0000) by (nonlinear_arith)
        requires
            -0x200_0000 <= e <= 0x200_0000,
            -0x10_0000 <= k <= 0x10_0000,
    ;
    assert(i * x == m * y) by (nonlinear_arith)
        requires
            x == y * z,
            m == i * z,
    ;
    rounding::sum_of_steps(f, a, m, arith::product(f, d, t), e * k, w);
    let r = arith::sum(f, a, arith::product(f, d, t));
    assert(rounding::whole() == pv * z);
    let (all, s, n) = (pv * z, k * pv, m + e * k);
    assert((i * x) * (all - s) + (j * x) * s == x * (i * all + e * s)) by (nonlinear_arith)
        requires
            e == j - i,
    ;
    assert(i * all + e * s == pv * n) by (nonlinear_arith)
        requires
            all == pv * z,
            s == k * pv,
            m == i * z,
            n == m + e * k,
    ;
    assert(x * (pv * n) == all * (n * y)) by (nonlinear_arith)
        requires
            x == y * z,
            all == pv * z,
    ;
}

// ---- the law of creases ----------------------------------------------------

/// The new point of a vertex on a crease or a boundary takes six eighths of the vertex and one
/// eighth of each of its neighbours along it.
pub proof fn crease_points_have_weights<F: Fn(Op, u64, u64) -> u64>(
    f: F,
    c: CageView,
    v: u32,
    a: u32,
    b: u32,
    u: nat,
)
    requires
        rounding::is_rounding(f),
        is_grid(u),
        v < c.positions.len() && a < c.positions.len() && b < c.positions.len(),
        on_grid(c.positions[v as int], u, ROOM as int),
        on_grid(c.positions[a as int], u, ROOM as int),
        on_grid(c.positions[b as int], u, ROOM as int),
    ensures
        ({
            let q = placing::rule_point(f, c, RuleView::Crease { v, a, b });
            let (p, n, m) = (c.positions[v as int], c.positions[a as int], c.positions[b as int]);
            &&& is_part(q.x, 6 * near::exact(p.x) + near::exact(n.x) + near::exact(m.x), 8)
            &&& is_part(q.y, 6 * near::exact(p.y) + near::exact(n.y) + near::exact(m.y), 8)
            &&& is_part(q.z, 6 * near::exact(p.z) + near::exact(n.z) + near::exact(m.z), 8)
        }),
{
    let (p, n, m) = (c.positions[v as int], c.positions[a as int], c.positions[b as int]);
    crease_number(f, p.x, n.x, m.x, u);
    crease_number(f, p.y, n.y, m.y, u);
    crease_number(f, p.z, n.z, m.z, u);
}

/// Moving a neighbour along a crease moves the new point an eighth as far, and not otherwise:
/// cages that agree in the vertex and the other neighbour have new points that are an eighth of
/// the neighbours' distance apart.
pub proof fn crease_points_follow_neighbours<F: Fn(Op, u64, u64) -> u64>(
    f: F,
    c: CageView,
    d: CageView,
    v: u32,
    a: u32,
    b: u32,
    u: nat,
)
    requires
        rounding::is_rounding(f),
        is_grid(u),
        v < c.positions.len() && a < c.positions.len() && b < c.positions.len(),
        v < d.positions.len() && a < d.positions.len() && b < d.positions.len(),
        on_grid(c.positions[v as int], u, ROOM as int),
        on_grid(c.positions[a as int], u, ROOM as int),
        on_grid(c.positions[b as int], u, ROOM as int),
        on_grid(d.positions[a as int], u, ROOM as int),
        d.positions[v as int] == c.positions[v as int],
        d.positions[b as int] == c.positions[b as int],
    ensures
        ({
            let q = placing::rule_point(f, c, RuleView::Crease { v, a, b });
            let r = placing::rule_point(f, d, RuleView::Crease { v, a, b });
            let (n, m) = (c.positions[a as int], d.positions[a as int]);
            &&& 8 * (near::exact(r.x) - near::exact(q.x)) == near::exact(m.x) - near::exact(n.x)
            &&& 8 * (near::exact(r.y) - near::exact(q.y)) == near::exact(m.y) - near::exact(n.y)
            &&& 8 * (near::exact(r.z) - near::exact(q.z)) == near::exact(m.z) - near::exact(n.z)
        }),
{
    crease_points_have_weights(f, c, v, a, b, u);
    crease_points_have_weights(f, d, v, a, b, u);
}

/// The point on a sharp edge or on the boundary is in the middle between its ends.
pub proof fn middles_are_between<F: Fn(Op, u64, u64) -> u64>(
    f: F,
    c: CageView,
    a: u32,
    b: u32,
    u: nat,
)
    requires
        rounding::is_rounding(f),
        is_grid(u),
        a < c.positions.len() && b < c.positions.len(),
        on_grid(c.positions[a as int], u, ROOM as int),
        on_grid(c.positions[b as int], u, ROOM as int),
    ensures
        ({
            let q = placing::rule_point(f, c, RuleView::Middle(a, b));
            let (n, m) = (c.positions[a as int], c.positions[b as int]);
            &&& is_part(q.x, near::exact(n.x) + near::exact(m.x), 2)
            &&& is_part(q.y, near::exact(n.y) + near::exact(m.y), 2)
            &&& is_part(q.z, near::exact(n.z) + near::exact(m.z), 2)
            &&& on_grid(q, (u - 1) as nat, 2 * ROOM as int)
        }),
{
    let (n, m) = (c.positions[a as int], c.positions[b as int]);
    middle_number(f, n.x, m.x, u);
    middle_number(f, n.y, m.y, u);
    middle_number(f, n.z, m.z, u);
}

/// A vertex that is kept is kept.
pub proof fn kept_vertices_stay<F: Fn(Op, u64, u64) -> u64>(f: F, c: CageView, v: u32)
    requires
        v < c.positions.len(),
    ensures
        placing::rule_point(f, c, RuleView::Keep(v)) == c.positions[v as int],
{
}

// ---- means -----------------------------------------------------------------

/// The coordinate of a point on an axis.
pub open spec fn along(p: Vec3, axis: u8) -> u64 {
    if axis == 0 {
        p.x
    } else if axis == 1 {
        p.y
    } else {
        p.z
    }
}

/// The exact sum of the coordinates of points on an axis.
pub open spec fn exact_sum(points: Seq<Vec3>, axis: u8) -> int
    decreases points.len(),
{
    if points.len() == 0 {
        0
    } else {
        exact_sum(points.drop_last(), axis) + near::exact(along(points.last(), axis))
    }
}

/// The corners of a face.
pub open spec fn corners_of(c: CageView, ring: Seq<u32>) -> Seq<Vec3> {
    ring.map_values(|v: u32| c.positions[v as int])
}

/// Whether all corners of a ring are vertices on a grid.
pub open spec fn ring_on_grid(c: CageView, ring: Seq<u32>, u: nat, most: int) -> bool {
    forall|i: int|
        0 <= i < ring.len() ==> (#[trigger] ring[i]) < c.positions.len() && on_grid(
            c.positions[ring[i] as int],
            u,
            most,
        )
}

proof fn grid_along(p: Vec3, u: nat, most: int, axis: u8)
    requires
        on_grid(p, u, most),
    ensures
        is_coarse(along(p, axis), u, most),
{
}

proof fn corner_total<F: Fn(Op, u64, u64) -> u64>(
    f: F,
    c: CageView,
    ring: Seq<u32>,
    n: int,
    u: nat,
    axis: u8,
)
    requires
        rounding::is_rounding(f),
        is_grid(u),
        0 <= n <= ring.len() <= 16,
        ring_on_grid(c, ring, u, 0x1_0000_0000),
    ensures
        is_coarse(along(placing::corner_sum(f, c, ring, n), axis), u, n * 0x1_0000_0000),
        near::exact(along(placing::corner_sum(f, c, ring, n), axis)) == exact_sum(
            corners_of(c, ring).take(n),
            axis,
        ),
    decreases n,
{
    if n <= 0 {
        rounding::nought_and_one();
        assert(0 * pow2(u) == 0);
        assert(rounding::is_step(ZERO, 0, u));
    } else {
        corner_total(f, c, ring, n - 1, u, axis);
        assert(ring[n - 1] < c.positions.len());
        let p = c.positions[ring[n - 1] as int];
        let before = along(placing::corner_sum(f, c, ring, n - 1), axis);
        grid_along(p, u, 0x1_0000_0000, axis);
        let i = steps_tell(before, u, (n - 1) * 0x1_0000_0000);
        let j = steps_tell(along(p, axis), u, 0x1_0000_0000);
        rounding::sum_of_steps(f, before, i, along(p, axis), j, u);
        let x = pow2(u) as int;
        assert((i + j) * x == i * x + j * x) by (nonlinear_arith);
        let all = corners_of(c, ring);
        assert(all.take(n).drop_last() =~= all.take(n - 1));
        assert(all.take(n).last() == p);
        assert(along(placing::corner_sum(f, c, ring, n), axis) == arith::sum(
            f,
            before,
            along(p, axis),
        ));
    }
}

/// A power of two as a count.
pub proof fn count_is_exact(n: nat)
    requires
        n == 1 || n == 2 || n == 4 || n == 8 || n == 16,
    ensures
        rounding::is_step(arith::counted(n as int), n as int, 1074),
{
    lemma2_to64();
    lemma2_to64_rest();
    if n == 1 {
        count_of(1, 0);
    } else if n == 2 {
        assert(double::leading_bit(2) == 1 + double::leading_bit(1));
        count_of(2, 1);
    } else if n == 4 {
        assert(double::leading_bit(2) == 1 + double::leading_bit(1));
        assert(double::leading_bit(4) == 1 + double::leading_bit(2));
        count_of(4, 2);
    } else if n == 8 {
        assert(double::leading_bit(2) == 1 + double::leading_bit(1));
        assert(double::leading_bit(4) == 1 + double::leading_bit(2));
        assert(double::leading_bit(8) == 1 + double::leading_bit(4));
        count_of(8, 3);
    } else {
        assert(double::leading_bit(2) == 1 + double::leading_bit(1));
        assert(double::leading_bit(4) == 1 + double::leading_bit(2));
        assert(double::leading_bit(8) == 1 + double::leading_bit(4));
        assert(double::leading_bit(16) == 1 + double::leading_bit(8));
        count_of(16, 4);
    }
}

proof fn count_of(n: nat, k: nat)
    requires
        1 <= n <= 16,
        k <= 4,
        double::leading_bit(n) == k,
        pow2(k) == n,
    ensures
        rounding::is_step(arith::counted(n as int), n as int, 1074),
{
    let b = arith::counted(n as int);
    lemma_pow2_adds(k, (52 - k) as nat);
    lemma2_to64_rest();
    assert(n * pow2((52 - k) as nat) == 0x10_0000_0000_0000);
    assert(b == (1023 + k) * 0x10_0000_0000_0000);
    assert(double::exponent_field(b) == 1023 + k);
    assert(double::significand(b) == 0x10_0000_0000_0000);
    lemma_pow2_adds(52, (1022 + k) as nat);
    lemma_pow2_adds(k, 1074);
}

/// The mean of a sum of a power of two of numbers.
proof fn mean_number<F: Fn(Op, u64, u64) -> u64>(f: F, total: u64, n: nat, u: nat, most: int)
    requires
        rounding::is_rounding(f),
        n == 1 || n == 2 || n == 4 || n == 8 || n == 16,
        4 <= u <= 1950,
        0 <= most < 0x20_0000_0000_0000,
        is_coarse(total, u, most),
    ensures
        is_part(
            arith::product(f, total, placing::reciprocal(f, arith::counted(n as int))),
            near::exact(total),
            n as int,
        ),
        is_coarse(
            arith::product(f, total, placing::reciprocal(f, arith::counted(n as int))),
            (u - 4) as nat,
            16 * most,
        ),
{
    count_is_exact(n);
    constants_are_exact();
    lemma2_to64();
    let g: nat = if n == 1 {
        0
    } else if n == 2 {
        1
    } else if n == 4 {
        2
    } else if n == 8 {
        3
    } else {
        4
    };
    assert(pow2(g) == n);
    // One over a power of two.
    lemma_pow2_adds(g, 1074);
    lemma_pow2_adds(g, (1074 - g) as nat);
    let count = arith::counted(n as int);
    assert(n * pow2(1074) == 1 * pow2(1074 + g));
    assert(rounding::is_step(count, 1, 1074 + g));
    assert(rounding::is_step(ONE, 1int * 1int, 1074));
    rounding::quotient_of_steps(f, ONE, 1, 1074, count, 1, 1074 + g);
    let part = placing::reciprocal(f, count);
    let k = steps_tell(total, u, most);
    assert(k * 1 == k);
    rounding::product_of_steps(f, total, k, u, part, 1, (1074 - g) as nat);
    let r = arith::product(f, total, part);
    let w = (u - g) as nat;
    lemma_pow2_adds(g, w);
    let (x, y, z) = (pow2(u) as int, pow2(w) as int, pow2(g) as int);
    assert(z * (k * y) == k * (z * y)) by (nonlinear_arith);
    // The same in the finest steps.
    let h = (4 - g) as nat;
    lemma_pow2_adds(h, (u - 4) as nat);
    let (s, t) = (pow2(h) as int, pow2((u - 4) as nat) as int);
    assert(k * (s * t) == (k * s) * t) by (nonlinear_arith);
    if h == 0 {
    } else if h < 4 {
        lemma_pow2_strictly_increases(h, 4);
    }
    assert(1 <= s <= 16) by {
        lemma_pow2_pos(h);
    }
    assert(-(16 * most) <= k * s <= 16 * most) by (nonlinear_arith)
        requires
            -most <= k <= most,
            1 <= s <= 16,
            most >= 0,
    ;
    assert(rounding::is_step(r, k * s, (u - 4) as nat));
}

/// The point of a face of one, two, four or eight corners is their mean.
pub proof fn face_points_are_means<F: Fn(Op, u64, u64) -> u64>(f: F, c: CageView, face: u32, u: nat)
    requires
        rounding::is_rounding(f),
        is_grid(u),
        face < c.faces.len(),
        ({
            let n = c.faces[face as int].len();
            n == 1 || n == 2 || n == 4 || n == 8
        }),
        ring_on_grid(c, c.faces[face as int], u, 0x1_0000_0000),
    ensures
        ({
            let q = placing::rule_point(f, c, RuleView::Face(face));
            let ring = c.faces[face as int];
            let all = corners_of(c, ring);
            &&& is_part(q.x, exact_sum(all, 0), ring.len() as int)
            &&& is_part(q.y, exact_sum(all, 1), ring.len() as int)
            &&& is_part(q.z, exact_sum(all, 2), ring.len() as int)
            &&& on_grid(q, (u - 4) as nat, 0x80_0000_0000)
        }),
{
    let ring = c.faces[face as int];
    let n = ring.len();
    let all = corners_of(c, ring);
    assert(all.take(n as int) =~= all);
    corner_total(f, c, ring, n as int, u, 0);
    corner_total(f, c, ring, n as int, u, 1);
    corner_total(f, c, ring, n as int, u, 2);
    let total = placing::corner_sum(f, c, ring, n as int);
    let most = n * 0x1_0000_0000;
    mean_number(f, total.x, n, u, most as int);
    mean_number(f, total.y, n, u, most as int);
    mean_number(f, total.z, n, u, most as int);
    let q = placing::rule_point(f, c, RuleView::Face(face));
    wider(q.x, (u - 4) as nat, 16 * most as int, 0x80_0000_0000);
    wider(q.y, (u - 4) as nat, 16 * most as int, 0x80_0000_0000);
    wider(q.z, (u - 4) as nat, 16 * most as int, 0x80_0000_0000);
}

proof fn wider(a: u64, u: nat, most: int, more: int)
    requires
        is_coarse(a, u, most),
        most <= more,
    ensures
        is_coarse(a, u, more),
{
    let k = steps_tell(a, u, most);
    assert(rounding::is_step(a, k, u));
}

/// A sum on a grid.
proof fn sum_on_grid<F: Fn(Op, u64, u64) -> u64>(f: F, a: u64, b: u64, u: nat, m: int, n: int)
    requires
        rounding::is_rounding(f),
        u <= 2000,
        is_coarse(a, u, m),
        is_coarse(b, u, n),
        m + n < 0x20_0000_0000_0000,
    ensures
        is_coarse(arith::sum(f, a, b), u, m + n),
        near::exact(arith::sum(f, a, b)) == near::exact(a) + near::exact(b),
{
    let (i, j) = (steps_tell(a, u, m), steps_tell(b, u, n));
    rounding::sum_of_steps(f, a, i, b, j, u);
    let x = pow2(u) as int;
    assert((i + j) * x == i * x + j * x) by (nonlinear_arith);
}

/// The point of a smooth edge between two faces is the mean of its ends and of the points of
/// the faces.
pub proof fn edge_points_are_means<F: Fn(Op, u64, u64) -> u64>(
    f: F,
    c: CageView,
    a: u32,
    b: u32,
    faces: Seq<u32>,
    u: nat,
)
    requires
        rounding::is_rounding(f),
        is_grid(u),
        faces.len() == 2,
        a < c.positions.len() && b < c.positions.len(),
        on_grid(c.positions[a as int], u, ROOM as int),
        on_grid(c.positions[b as int], u, ROOM as int),
        on_grid(placing::rule_point(f, c, RuleView::Face(faces[0])), u, ROOM as int),
        on_grid(placing::rule_point(f, c, RuleView::Face(faces[1])), u, ROOM as int),
    ensures
        ({
            let q = placing::rule_point(
                f,
                c,
                RuleView::Edge { a, b, faces, sharpness: None },
            );
            let (n, m) = (c.positions[a as int], c.positions[b as int]);
            let r = placing::rule_point(f, c, RuleView::Face(faces[0]));
            let s = placing::rule_point(f, c, RuleView::Face(faces[1]));
            &&& is_part(q.x, summed(n.x, m.x, r.x, s.x), 4)
            &&& is_part(q.y, summed(n.y, m.y, r.y, s.y), 4)
            &&& is_part(q.z, summed(n.z, m.z, r.z, s.z), 4)
        }),
{
    let (n, m) = (c.positions[a as int], c.positions[b as int]);
    let r = placing::face_point(f, c, faces[0]);
    let s = placing::face_point(f, c, faces[1]);
    quarter_number(f, n.x, m.x, r.x, s.x, u);
    quarter_number(f, n.y, m.y, r.y, s.y, u);
    quarter_number(f, n.z, m.z, r.z, s.z, u);
    two_faces(f, c, faces);
}

/// The exact sum of four numbers.
pub open spec fn summed(a: u64, b: u64, c: u64, d: u64) -> int {
    near::exact(a) + near::exact(b) + near::exact(c) + near::exact(d)
}

proof fn two_faces<F: Fn(Op, u64, u64) -> u64>(f: F, c: CageView, faces: Seq<u32>)
    requires
        faces.len() == 2,
    ensures
        placing::face_sum(f, c, faces, 2) == arith::vector_sum(
            f,
            arith::vector_sum(
                f,
                Vec3::of(ZERO, ZERO, ZERO),
                placing::face_point(f, c, faces[0]),
            ),
            placing::face_point(f, c, faces[1]),
        ),
{
    assert(placing::face_sum(f, c, faces, 0) == Vec3::of(ZERO, ZERO, ZERO));
    assert(placing::face_sum(f, c, faces, 1) == arith::vector_sum(
        f,
        placing::face_sum(f, c, faces, 0),
        placing::face_point(f, c, faces[0]),
    ));
}

/// The mean of four numbers.
proof fn quarter_number<F: Fn(Op, u64, u64) -> u64>(f: F, x: u64, y: u64, z: u64, w: u64, u: nat)
    requires
        rounding::is_rounding(f),
        is_grid(u),
        is_coarse(x, u, ROOM as int),
        is_coarse(y, u, ROOM as int),
        is_coarse(z, u, ROOM as int),
        is_coarse(w, u, ROOM as int),
    ensures
        is_part(
            arith::product(
                f,
                arith::sum(
                    f,
                    arith::sum(f, x, y),
                    arith::sum(f, arith::sum(f, ZERO, z), w),
                ),
                placing::reciprocal(f, arith::sum(f, placing::TWO, arith::counted(2))),
            ),
            near::exact(x) + near::exact(y) + near::exact(z) + near::exact(w),
            4,
        ),
{
    let m = ROOM as int;
    rounding::nought_and_one();
    assert(0 * pow2(u) == 0);
    assert(rounding::is_step(ZERO, 0, u));
    sum_on_grid(f, x, y, u, m, m);
    sum_on_grid(f, ZERO, z, u, 0, m);
    let one = arith::sum(f, ZERO, z);
    sum_on_grid(f, one, w, u, m, m);
    let two = arith::sum(f, one, w);
    sum_on_grid(f, arith::sum(f, x, y), two, u, 2 * m, 2 * m);
    let all = arith::sum(f, arith::sum(f, x, y), two);
    // Two and the number of faces make four.
    count_is_exact(2);
    constants_are_exact();
    rounding::sum_of_steps(f, placing::TWO, 2, arith::counted(2), 2, 1074);
    let four = arith::sum(f, placing::TWO, arith::counted(2));
    lemma2_to64();
    lemma_pow2_adds(2, 1074);
    assert(4 * pow2(1074) == 1 * pow2(1076));
    assert(rounding::is_step(four, 1, 1076));
    assert(rounding::is_step(ONE, 1int * 1int, 1074));
    rounding::quotient_of_steps(f, ONE, 1, 1074, four, 1, 1076);
    let part = placing::reciprocal(f, four);
    let k = steps_tell(all, u, 4 * m);
    assert(k * 1 == k);
    rounding::product_of_steps(f, all, k, u, part, 1, 1072);
    let v = (u - 2) as nat;
    lemma_pow2_adds(2, v);
    let (e, g) = (pow2(u) as int, pow2(v) as int);
    assert(4 * (k * g) == k * (4 * g)) by (nonlinear_arith);
}

/// A quarter of a number on a grid.
proof fn quarter<F: Fn(Op, u64, u64) -> u64>(f: F, a: u64, u: nat, most: int)
    requires
        rounding::is_rounding(f),
        4 <= u <= 1950,
        0 <= most < 0x20_0000_0000_0000,
        is_coarse(a, u, most),
    ensures
        ({
            let r = arith::product(f, a, placing::reciprocal(f, arith::counted(4)));
            &&& is_coarse(r, (u - 2) as nat, most)
            &&& 4 * near::exact(r) == near::exact(a)
        }),
{
    count_is_exact(4);
    constants_are_exact();
    lemma2_to64();
    lemma_pow2_adds(2, 1074);
    let count = arith::counted(4);
    assert(4 * pow2(1074) == 1 * pow2(1076));
    assert(rounding::is_step(count, 1, 1076));
    assert(rounding::is_step(ONE, 1int * 1int, 1074));
    rounding::quotient_of_steps(f, ONE, 1, 1074, count, 1, 1076);
    let part = placing::reciprocal(f, count);
    let k = steps_tell(a, u, most);
    assert(k * 1 == k);
    rounding::product_of_steps(f, a, k, u, part, 1, 1072);
    let v = (u - 2) as nat;
    lemma_pow2_adds(2, v);
    let (e, g) = (pow2(u) as int, pow2(v) as int);
    assert(4 * (k * g) == k * (4 * g)) by (nonlinear_arith);
    assert(rounding::is_step(arith::product(f, a, part), k, v));
}

/// A number on a finer grid.
proof fn on_finer_grid(a: u64, u: nat, most: int)
    requires
        2 <= u,
        is_coarse(a, u, most),
    ensures
        is_coarse(a, (u - 2) as nat, 4 * most),
{
    let k = steps_tell(a, u, most);
    lemma_pow2_adds(2, (u - 2) as nat);
    lemma2_to64();
    let g = pow2((u - 2) as nat) as int;
    assert(k * (4 * g) == (4 * k) * g) by (nonlinear_arith);
    assert(rounding::is_step(a, 4 * k, (u - 2) as nat));
}

/// A sum of four numbers, one after the other.
spec fn four_added<F: Fn(Op, u64, u64) -> u64>(f: F, a: u64, b: u64, c: u64, d: u64) -> u64 {
    arith::sum(f, arith::sum(f, arith::sum(f, arith::sum(f, ZERO, a), b), c), d)
}

proof fn four_on_grid<F: Fn(Op, u64, u64) -> u64>(f: F, a: u64, b: u64, c: u64, d: u64, u: nat, m: int)
    requires
        rounding::is_rounding(f),
        u <= 1950,
        0 <= m < 0x1_0000_0000_0000,
        is_coarse(a, u, m) && is_coarse(b, u, m) && is_coarse(c, u, m) && is_coarse(d, u, m),
    ensures
        is_coarse(four_added(f, a, b, c, d), u, 4 * m),
        near::exact(four_added(f, a, b, c, d)) == summed(a, b, c, d),
{
    rounding::nought_and_one();
    assert(0 * pow2(u) == 0);
    assert(rounding::is_step(ZERO, 0, u));
    sum_on_grid(f, ZERO, a, u, 0, m);
    let x = arith::sum(f, ZERO, a);
    sum_on_grid(f, x, b, u, m, m);
    let y = arith::sum(f, x, b);
    sum_on_grid(f, y, c, u, 2 * m, m);
    let z = arith::sum(f, y, c);
    sum_on_grid(f, z, d, u, 3 * m, m);
}

/// The coordinate of a smooth vertex of four edges and four faces.
proof fn smooth_number<F: Fn(Op, u64, u64) -> u64>(f: F, around: u64, along: u64, p: u64, u: nat)
    requires
        rounding::is_rounding(f),
        is_grid(u),
        is_coarse(around, u, 0x1000_0000_0000),
        is_coarse(along, u, 0x1000_0000_0000),
        is_coarse(p, u, 0x400_0000_0000),
    ensures
        ({
            let part = placing::reciprocal(f, arith::counted(4));
            let n = arith::counted(4);
            let r = arith::product(
                f,
                arith::sum(
                    f,
                    arith::sum(
                        f,
                        arith::product(f, around, part),
                        arith::product(f, arith::product(f, along, part), placing::TWO),
                    ),
                    arith::product(f, p, arith::difference(f, n, placing::THREE)),
                ),
                part,
            );
            double::is_finite(r) && 16 * near::exact(r) == near::exact(around) + 2 * near::exact(along)
                + 4 * near::exact(p)
        }),
{
    let part = placing::reciprocal(f, arith::counted(4));
    let n = arith::counted(4);
    let v = (u - 2) as nat;
    quarter(f, around, u, 0x1000_0000_0000);
    quarter(f, along, u, 0x1000_0000_0000);
    let (a, b) = (arith::product(f, around, part), arith::product(f, along, part));
    constants_are_exact();
    count_is_exact(4);
    let k = steps_tell(b, v, 0x1000_0000_0000);
    rounding::product_of_steps(f, b, k, v, placing::TWO, 2, 1074);
    let twice = arith::product(f, b, placing::TWO);
    let x = pow2(v) as int;
    assert((k * 2) * x == 2 * (k * x)) by (nonlinear_arith);
    assert(rounding::is_step(twice, k * 2, v));
    assert(is_coarse(twice, v, 0x2000_0000_0000));
    rounding::difference_of_steps(f, n, 4, placing::THREE, 3, 1074);
    let one = arith::difference(f, n, placing::THREE);
    on_finer_grid(p, u, 0x400_0000_0000);
    let j = steps_tell(p, v, 0x1000_0000_0000);
    assert(j * 1 == j);
    rounding::product_of_steps(f, p, j, v, one, 1, 1074);
    let own = arith::product(f, p, one);
    assert(rounding::is_step(own, j, v));
    assert(is_coarse(own, v, 0x1000_0000_0000));
    sum_on_grid(f, a, twice, v, 0x1000_0000_0000, 0x2000_0000_0000);
    let s = arith::sum(f, a, twice);
    sum_on_grid(f, s, own, v, 0x3000_0000_0000, 0x1000_0000_0000);
    let all = arith::sum(f, s, own);
    quarter(f, all, v, 0x4000_0000_0000);
}

proof fn four_faces<F: Fn(Op, u64, u64) -> u64>(f: F, c: CageView, faces: Seq<u32>)
    requires
        faces.len() == 4,
    ensures
        ({
            let r = placing::face_sum(f, c, faces, 4);
            let (a, b) = (placing::face_point(f, c, faces[0]), placing::face_point(f, c, faces[1]));
            let (d, e) = (placing::face_point(f, c, faces[2]), placing::face_point(f, c, faces[3]));
            &&& r.x == four_added(f, a.x, b.x, d.x, e.x)
            &&& r.y == four_added(f, a.y, b.y, d.y, e.y)
            &&& r.z == four_added(f, a.z, b.z, d.z, e.z)
        }),
{
    assert(placing::face_sum(f, c, faces, 0) == Vec3::of(ZERO, ZERO, ZERO));
    let one = placing::face_sum(f, c, faces, 1);
    assert(one == arith::vector_sum(
        f,
        placing::face_sum(f, c, faces, 0),
        placing::face_point(f, c, faces[0]),
    ));
    let two = placing::face_sum(f, c, faces, 2);
    assert(two == arith::vector_sum(f, one, placing::face_point(f, c, faces[1])));
    let three = placing::face_sum(f, c, faces, 3);
    assert(three == arith::vector_sum(f, two, placing::face_point(f, c, faces[2])));
}

proof fn four_middles<F: Fn(Op, u64, u64) -> u64>(f: F, c: CageView, edges: Seq<EdgeKey>)
    requires
        edges.len() == 4,
    ensures
        ({
            let r = placing::middle_sum(f, c, edges, 4);
            let a = placing::middle(f, c, edges[0].0, edges[0].1);
            let b = placing::middle(f, c, edges[1].0, edges[1].1);
            let d = placing::middle(f, c, edges[2].0, edges[2].1);
            let e = placing::middle(f, c, edges[3].0, edges[3].1);
            &&& r.x == four_added(f, a.x, b.x, d.x, e.x)
            &&& r.y == four_added(f, a.y, b.y, d.y, e.y)
            &&& r.z == four_added(f, a.z, b.z, d.z, e.z)
        }),
{
    assert(placing::middle_sum(f, c, edges, 0) == Vec3::of(ZERO, ZERO, ZERO));
    let one = placing::middle_sum(f, c, edges, 1);
    assert(one == arith::vector_sum(
        f,
        placing::middle_sum(f, c, edges, 0),
        placing::middle(f, c, edges[0].0, edges[0].1),
    ));
    let two = placing::middle_sum(f, c, edges, 2);
    assert(two == arith::vector_sum(f, one, placing::middle(f, c, edges[1].0, edges[1].1)));
    let three = placing::middle_sum(f, c, edges, 3);
    assert(three == arith::vector_sum(f, two, placing::middle(f, c, edges[2].0, edges[2].1)));
}

/// Sixteen times the new point of a smooth vertex, at which four edges and four faces meet, are the
/// points of its faces, twice the middles of its edges, and four times the vertex.
pub proof fn smooth_points_have_weights<F: Fn(Op, u64, u64) -> u64>(
    f: F,
    c: CageView,
    v: u32,
    edges: Seq<EdgeKey>,
    faces: Seq<u32>,
    u: nat,
)
    requires
        rounding::is_rounding(f),
        is_grid(u),
        v < c.positions.len(),
        on_grid(c.positions[v as int], u, 0x400_0000_0000),
        edges.len() == 4 && faces.len() == 4,
        forall|i: int|
            0 <= i < 4 ==> on_grid(
                placing::rule_point(f, c, RuleView::Face(#[trigger] faces[i])),
                u,
                0x400_0000_0000,
            ),
        forall|i: int|
            0 <= i < 4 ==> on_grid(
                placing::rule_point(f, c, RuleView::Middle((#[trigger] edges[i]).0, edges[i].1)),
                u,
                0x400_0000_0000,
            ),
    ensures
        ({
            let q = placing::rule_point(
                f,
                c,
                RuleView::Smooth { v, edges, faces, sharpness: None },
            );
            let p = c.positions[v as int];
            let face = |i: int| placing::rule_point(f, c, RuleView::Face(faces[i]));
            let edge = |i: int| placing::rule_point(f, c, RuleView::Middle(edges[i].0, edges[i].1));
            &&& is_part(
                q.x,
                summed(face(0).x, face(1).x, face(2).x, face(3).x) + 2 * summed(
                    edge(0).x,
                    edge(1).x,
                    edge(2).x,
                    edge(3).x,
                ) + 4 * near::exact(p.x),
                16,
            )
            &&& is_part(
                q.y,
                summed(face(0).y, face(1).y, face(2).y, face(3).y) + 2 * summed(
                    edge(0).y,
                    edge(1).y,
                    edge(2).y,
                    edge(3).y,
                ) + 4 * near::exact(p.y),
                16,
            )
            &&& is_part(
                q.z,
                summed(face(0).z, face(1).z, face(2).z, face(3).z) + 2 * summed(
                    edge(0).z,
                    edge(1).z,
                    edge(2).z,
                    edge(3).z,
                ) + 4 * near::exact(p.z),
                16,
            )
        }),
{
    let p = c.positions[v as int];
    let m = 0x400_0000_0000int;
    let (a, b) = (placing::face_point(f, c, faces[0]), placing::face_point(f, c, faces[1]));
    let (d, e) = (placing::face_point(f, c, faces[2]), placing::face_point(f, c, faces[3]));
    let g = placing::middle(f, c, edges[0].0, edges[0].1);
    let h = placing::middle(f, c, edges[1].0, edges[1].1);
    let k = placing::middle(f, c, edges[2].0, edges[2].1);
    let l = placing::middle(f, c, edges[3].0, edges[3].1);
    assert(on_grid(placing::rule_point(f, c, RuleView::Face(faces[0])), u, m));
    assert(on_grid(placing::rule_point(f, c, RuleView::Face(faces[1])), u, m));
    assert(on_grid(placing::rule_point(f, c, RuleView::Face(faces[2])), u, m));
    assert(on_grid(placing::rule_point(f, c, RuleView::Face(faces[3])), u, m));
    assert(on_grid(placing::rule_point(f, c, RuleView::Middle(edges[0].0, edges[0].1)), u, m));
    assert(on_grid(placing::rule_point(f, c, RuleView::Middle(edges[1].0, edges[1].1)), u, m));
    assert(on_grid(placing::rule_point(f, c, RuleView::Middle(edges[2].0, edges[2].1)), u, m));
    assert(on_grid(placing::rule_point(f, c, RuleView::Middle(edges[3].0, edges[3].1)), u, m));
    four_faces(f, c, faces);
    four_middles(f, c, edges);
    four_on_grid(f, a.x, b.x, d.x, e.x, u, m);
    four_on_grid(f, a.y, b.y, d.y, e.y, u, m);
    four_on_grid(f, a.z, b.z, d.z, e.z, u, m);
    four_on_grid(f, g.x, h.x, k.x, l.x, u, m);
    four_on_grid(f, g.y, h.y, k.y, l.y, u, m);
    four_on_grid(f, g.z, h.z, k.z, l.z, u, m);
    let around = placing::face_sum(f, c, faces, 4);
    let along = placing::middle_sum(f, c, edges, 4);
    smooth_number(f, around.x, along.x, p.x, u);
    smooth_number(f, around.y, along.y, p.y, u);
    smooth_number(f, around.z, along.z, p.z, u);
}

// ---- sharpness -------------------------------------------------------------

/// The point of an edge of fractional sharpness lies between where the smooth and the sharp edge
/// have theirs, by the sharpness: at `t` of the way, in exact numbers.
pub proof fn blends_go_part_of_the_way<F: Fn(Op, u64, u64) -> u64>(
    f: F,
    p: Vec3,
    q: Vec3,
    t: u64,
    u: nat,
    v: nat,
)
    requires
        rounding::is_rounding(f),
        is_grid(u),
        1054 <= v <= 1074,
        on_grid(p, u, 0x100_0000),
        on_grid(q, u, 0x100_0000),
        is_coarse(t, v, 0x10_0000),
    ensures
        ({
            let r = placing::towards(f, p, q, t);
            let (w, s) = (rounding::whole(), near::exact(t));
            &&& w * near::exact(r.x) == near::exact(p.x) * (w - s) + near::exact(q.x) * s
            &&& w * near::exact(r.y) == near::exact(p.y) * (w - s) + near::exact(q.y) * s
            &&& w * near::exact(r.z) == near::exact(p.z) * (w - s) + near::exact(q.z) * s
        }),
{
    way_number(f, p.x, q.x, t, u, v);
    way_number(f, p.y, q.y, t, u, v);
    way_number(f, p.z, q.z, t, u, v);
}

// ---- which rule a vertex has -----------------------------------------------

/// A vertex that is a full corner stays where it is.
pub proof fn full_corners_stay<F: Fn(Op, u64, u64) -> u64>(f: F, c: CageView, v: u32)
    requires
        v < c.positions.len(),
        double::at_most(ONE, subdiv::vertex_sharpness(c.corners, v)),
    ensures
        placing::rule_point(f, c, subdiv::vertex_rule(c, v)) == c.positions[v as int],
{
}

/// The new point on an edge that only one face has, or that is fully sharp, is in its middle.
pub proof fn bare_and_sharp_edges_are_halved<F: Fn(Op, u64, u64) -> u64>(
    f: F,
    c: CageView,
    e: EdgeKey,
    u: nat,
)
    requires
        rounding::is_rounding(f),
        is_grid(u),
        e.0 < c.positions.len() && e.1 < c.positions.len(),
        on_grid(c.positions[e.0 as int], u, ROOM as int),
        on_grid(c.positions[e.1 as int], u, ROOM as int),
        subdiv::faces_along(subdiv::all_sides(c.faces), e).len() == 1 || double::at_most(
            ONE,
            subdiv::edge_sharpness(c.crease_edges, e),
        ),
    ensures
        ({
            let q = placing::rule_point(f, c, subdiv::edge_rule(c, e));
            let (n, m) = (c.positions[e.0 as int], c.positions[e.1 as int]);
            &&& is_part(q.x, near::exact(n.x) + near::exact(m.x), 2)
            &&& is_part(q.y, near::exact(n.y) + near::exact(m.y), 2)
            &&& is_part(q.z, near::exact(n.z) + near::exact(m.z), 2)
        }),
{
    middles_are_between(f, c, e.0, e.1, u);
}

/// A vertex without creases or corners, whose boundary is not kept, goes by all that meets in it.
pub proof fn plain_vertices_are_smooth(c: CageView, v: u32)
    requires
        !double::below(ZERO, subdiv::vertex_sharpness(c.corners, v)),
        !c.interpolate_boundary,
        forall|e: EdgeKey| !is_creased(c.crease_edges, e),
    ensures
        ({
            let h = subdiv::all_sides(c.faces);
            subdiv::vertex_rule(c, v) == (RuleView::Smooth {
                v,
                edges: subdiv::edges_at(h, v),
                faces: subdiv::faces_at(h, v),
                sharpness: None,
            })
        }),
{
    let edges = subdiv::edges_at(subdiv::all_sides(c.faces), v);
    sharp_edges_are_creased(c.crease_edges, edges);
    let s = subdiv::sharp_edges(c.crease_edges, edges);
    if s.len() > 0 {
        assert(is_creased(c.crease_edges, s[0]));
    }
    assert(double::below(ZERO, ONE));
}

/// Whether an edge of a cage is creased.
pub open spec fn is_creased(creases: Seq<Crease>, e: EdgeKey) -> bool {
    double::below(ZERO, subdiv::edge_sharpness(creases, e))
}

proof fn sharp_edges_are_creased(creases: Seq<Crease>, edges: Seq<EdgeKey>)
    ensures
        subdiv::sharp_edges(creases, edges).len() <= edges.len(),
        forall|i: int|
            0 <= i < subdiv::sharp_edges(creases, edges).len() ==> edges.contains(
                #[trigger] subdiv::sharp_edges(creases, edges)[i],
            ) && is_creased(creases, subdiv::sharp_edges(creases, edges)[i]),
        forall|i: int|
            0 <= i < edges.len() && is_creased(creases, #[trigger] edges[i])
                ==> subdiv::sharp_edges(creases, edges).contains(edges[i]),
    decreases edges.len(),
{
    if edges.len() > 0 {
        let before = edges.drop_last();
        sharp_edges_are_creased(creases, before);
        let (s, r) = (subdiv::sharp_edges(creases, before), subdiv::sharp_edges(creases, edges));
        assert forall|i: int| 0 <= i < r.len() implies edges.contains(#[trigger] r[i]) && is_creased(
            creases,
            r[i],
        ) by {
            if i < s.len() {
                assert(r[i] == s[i]);
                assert(before.contains(s[i]));
                let k = before.index_of(s[i]);
                assert(edges[k] == s[i]);
            } else {
                assert(r[i] == edges[edges.len() - 1]);
            }
        }
        assert forall|i: int| 0 <= i < edges.len() && is_creased(creases, #[trigger] edges[i]) implies r.contains(
            edges[i],
        ) by {
            if i < before.len() {
                assert(before[i] == edges[i]);
                assert(s.contains(edges[i]));
                let k = s.index_of(edges[i]);
                assert(r[k] == edges[i]);
            } else {
                assert(r[s.len() as int] == edges[i]);
            }
        }
    }
}

/// A vertex that is no corner and on no interpolated boundary, at which two edges are creased
/// and no others, has its new point along the crease: the neighbours that count are the other
/// ends of those two edges.
pub proof fn creased_vertices_follow_the_crease(c: CageView, v: u32, e: EdgeKey, g: EdgeKey)
    requires
        ({
            let edges = subdiv::edges_at(subdiv::all_sides(c.faces), v);
            &&& edges.contains(e) && edges.contains(g) && e != g
            &&& is_creased(c.crease_edges, e) && is_creased(c.crease_edges, g)
            &&& subdiv::sharp_edges(c.crease_edges, edges).len() == 2
        }),
        !double::at_most(ONE, subdiv::vertex_sharpness(c.corners, v)),
        !c.interpolate_boundary,
    ensures
        subdiv::vertex_rule(c, v) matches RuleView::Blend { v: w, a, b, .. } && w == v && ((a
            == subdiv::other_end(e, v) && b == subdiv::other_end(g, v)) || (b == subdiv::other_end(
            e,
            v,
        ) && a == subdiv::other_end(g, v))),
{
    let edges = subdiv::edges_at(subdiv::all_sides(c.faces), v);
    let s = subdiv::sharp_edges(c.crease_edges, edges);
    sharp_edges_are_creased(c.crease_edges, edges);
    let (i, j) = (edges.index_of(e), edges.index_of(g));
    assert(edges[i] == e && edges[j] == g);
    assert(s.contains(e) && s.contains(g));
    let (k, l) = (s.index_of(e), s.index_of(g));
    assert(s[k] == e && s[l] == g);
}

/// Along a crease that is sharp through and through the new point is that of the crease.
pub proof fn full_creases_are_creases<F: Fn(Op, u64, u64) -> u64>(
    f: F,
    c: CageView,
    v: u32,
    a: u32,
    b: u32,
    sharp: (u64, u64),
    edges: Seq<EdgeKey>,
    faces: Seq<u32>,
    u: nat,
)
    requires
        rounding::is_rounding(f),
        u <= 1900,
        1054 <= u,
        is_coarse(sharp.0, u, ROOM as int),
        is_coarse(sharp.1, u, ROOM as int),
        near::exact(sharp.0) >= rounding::whole(),
        near::exact(sharp.1) >= rounding::whole(),
    ensures
        placing::rule_point(f, c, RuleView::Blend { v, a, b, sharp, edges, faces })
            == placing::rule_point(f, c, RuleView::Crease { v, a, b }),
{
    middle_number(f, sharp.0, sharp.1, u);
    rounding::nought_and_one();
    let mean = arith::product(f, arith::sum(f, sharp.0, sharp.1), HALF);
    rounding::order_tells(ONE, mean);
}

} // verus!
