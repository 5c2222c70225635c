//! What transforms do to whole numbers, where nothing is rounded: how they act, how they multiply,
//! how they are undone.

use crate::arith;
use crate::arith::{Op, TINY};
use crate::double;
use crate::math::matrix;
use crate::math::matrix::Row;
use crate::math::point;
use crate::math::{Matrix4, Point3, Vec3, EPSILON, ONE, ZERO};
use crate::near;
use crate::rounding;
use vstd::arithmetic::power2::*;
use vstd::prelude::*;

verus! {

// ---- whole numbers ---------------------------------------------------------

/// Whether a double is a whole number.
pub open spec fn is_count(a: u64, k: int) -> bool {
    rounding::is_step(a, k, 1074)
}

/// Whether a whole number is within a bound.
pub open spec fn is_within(k: int, most: int) -> bool {
    -most <= k <= most
}

pub proof fn plus_counts<F: Fn(Op, u64, u64) -> u64>(f: F, a: u64, i: int, b: u64, j: int)
    requires
        rounding::is_rounding(f),
        is_count(a, i) && is_count(b, j),
        is_within(i + j, 0x1f_ffff_ffff_ffff),
    ensures
        is_count(arith::sum(f, a, b), i + j),
{
    rounding::sum_of_steps(f, a, i, b, j, 1074);
}

pub proof fn minus_counts<F: Fn(Op, u64, u64) -> u64>(f: F, a: u64, i: int, b: u64, j: int)
    requires
        rounding::is_rounding(f),
        is_count(a, i) && is_count(b, j),
        is_within(i - j, 0x1f_ffff_ffff_ffff),
    ensures
        is_count(arith::difference(f, a, b), i - j),
{
    rounding::difference_of_steps(f, a, i, b, j, 1074);
}

pub proof fn times_counts<F: Fn(Op, u64, u64) -> u64>(f: F, a: u64, i: int, b: u64, j: int, m: int, n: int)
    requires
        rounding::is_rounding(f),
        is_count(a, i) && is_count(b, j),
        is_within(i, m) && is_within(j, n),
        0 <= m && 0 <= n && m * n <= 0x1f_ffff_ffff_ffff,
    ensures
        is_count(arith::product(f, a, b), i * j),
        is_within(i * j, m * n),
{
    assert(is_within(i * j, m * n)) by (nonlinear_arith)
        requires
            is_within(i, m) && is_within(j, n),
            0 <= m && 0 <= n,
    ;
    rounding::product_of_steps(f, a, i, 1074, b, j, 1074);
}

/// Nought and one are whole numbers.
pub proof fn small_counts()
    ensures
        is_count(ZERO, 0),
        is_count(ONE, 1),
{
    rounding::nought_and_one();
    assert(0 * pow2(1074) == 0 && 1 * pow2(1074) == pow2(1074));
}

/// A whole number is only one.
pub proof fn counts_tell(a: u64, i: int, j: int)
    requires
        is_count(a, i) && is_count(a, j),
    ensures
        i == j,
{
    lemma_pow2_pos(1074);
    let w = pow2(1074) as int;
    assert(i == j) by (nonlinear_arith)
        requires
            i * w == j * w,
            w > 0,
    ;
}

// ---- products of sums ------------------------------------------------------

proof fn spread(a: int, b: int, c: int, x: int)
    ensures
        (a + b + c) * x == a * x + b * x + c * x,
        x * (a + b + c) == x * a + x * b + x * c,
{
    assert((a + b + c) * x == a * x + b * x + c * x) by (nonlinear_arith);
    assert(x * (a + b + c) == x * a + x * b + x * c) by (nonlinear_arith);
}

proof fn in_turn(a: int, b: int, c: int)
    ensures
        (a * b) * c == a * (b * c),
        (a * b) * c == b * (a * c),
{
    assert((a * b) * c == a * (b * c)) by (nonlinear_arith);
    assert((a * b) * c == b * (a * c)) by (nonlinear_arith);
}

proof fn four_in_turn(a: int, b: int, c: int, d: int)
    ensures
        ((a * b) * c) * d == (c * (b * d)) * a,
{
    assert(((a * b) * c) * d == (c * (b * d)) * a) by (nonlinear_arith);
}

// ---- points, vectors and matrices ------------------------------------------

/// Whether a place, or a vector, has whole numbers within a bound.
pub open spec fn is_spot(p: Point3, x: int, y: int, z: int, most: int) -> bool {
    &&& is_count(p.x, x) && is_count(p.y, y) && is_count(p.z, z)
    &&& is_within(x, most) && is_within(y, most) && is_within(z, most)
}

pub open spec fn is_arrow(v: Vec3, x: int, y: int, z: int, most: int) -> bool {
    &&& is_count(v.x, x) && is_count(v.y, y) && is_count(v.z, z)
    &&& is_within(x, most) && is_within(y, most) && is_within(z, most)
}

/// Whether the entries of a matrix are whole numbers within a bound.
pub open spec fn is_table(m: Matrix4, k: spec_fn(int, int) -> int, most: int) -> bool {
    forall|i: int, j: int|
        0 <= i < 4 && 0 <= j < 4 ==> is_count(#[trigger] matrix::entry(m, i, j), k(i, j)) && is_within(
            k(i, j),
            most,
        )
}

/// Whether the last row of a table is that of a transform which keeps parallels parallel.
pub open spec fn is_affine(k: spec_fn(int, int) -> int) -> bool {
    k(3, 0) == 0 && k(3, 1) == 0 && k(3, 2) == 0 && k(3, 3) == 1
}

/// The bounds of a row times a point.
proof fn row_counts<F: Fn(Op, u64, u64) -> u64>(
    f: F,
    r: Row,
    a: int,
    b: int,
    c: int,
    d: int,
    p: Point3,
    x: int,
    y: int,
    z: int,
    m: int,
    n: int,
)
    requires
        rounding::is_rounding(f),
        is_count(r.x, a) && is_count(r.y, b) && is_count(r.z, c) && is_count(r.w, d),
        is_within(a, m) && is_within(b, m) && is_within(c, m) && is_within(d, m),
        is_spot(p, x, y, z, n),
        0 <= m <= 0x1000_0000,
        1 <= n,
        m * n <= 0x4_0000_0000_0000,
    ensures
        is_count(matrix::row_times(f, r, p.x, p.y, p.z), a * x + b * y + c * z),
        is_count(matrix::row_at(f, r, p), a * x + b * y + c * z + d),
        is_within(a * x + b * y + c * z, 3 * (m * n)),
{
    times_counts(f, r.x, a, p.x, x, m, n);
    times_counts(f, r.y, b, p.y, y, m, n);
    times_counts(f, r.z, c, p.z, z, m, n);
    let (s, t, u) = (
        arith::product(f, r.x, p.x),
        arith::product(f, r.y, p.y),
        arith::product(f, r.z, p.z),
    );
    plus_counts(f, s, a * x, t, b * y);
    plus_counts(f, arith::sum(f, s, t), a * x + b * y, u, c * z);
    plus_counts(f, matrix::row_times(f, r, p.x, p.y, p.z), a * x + b * y + c * z, r.w, d);
}

/// A whole number is next to one only where it is one.
proof fn next_to_one<F: Fn(Op, u64, u64) -> u64>(f: F, a: u64, k: int)
    requires
        rounding::is_rounding(f),
        is_count(a, k),
        is_within(k, 0xf_ffff_ffff_ffff),
    ensures
        double::below(double::magnitude(arith::difference(f, a, ONE)), EPSILON) <==> k == 1,
{
    small_counts();
    minus_counts(f, a, k, ONE, 1);
    let d = arith::difference(f, a, ONE);
    rounding::magnitude_is_exact(d);
    rounding::order_tells(double::magnitude(d), EPSILON);
    less_than_one();
    lemma_pow2_pos(1074);
    let w = pow2(1074) as int;
    let h = k - 1;
    assert(h != 0 ==> near::gap(h * w, 0) >= w) by (nonlinear_arith)
        requires
            w > 0,
            near::gap(h * w, 0) == h * w || near::gap(h * w, 0) == -(h * w),
            near::gap(h * w, 0) >= 0,
    ;
    assert(0 * w == 0);
}

/// What is taken for nothing is more than nothing and less than one.
pub proof fn less_than_one()
    ensures
        double::is_finite(EPSILON),
        0 < near::exact(EPSILON) < pow2(1074),
{
    assert(double::is_finite(EPSILON) && double::is_finite(ONE));
    assert(double::below(EPSILON, ONE) && double::below(ZERO, EPSILON));
    rounding::order_tells(EPSILON, ONE);
    rounding::order_tells(ZERO, EPSILON);
    small_counts();
}

// ---- how they act ----------------------------------------------------------

/// A transform takes a point to what each of its rows makes of it: the products with the
/// coordinates, and the last entry. Where the last row does not make one, the others are divided
/// by what it makes.
pub proof fn points_go_where_rows_say<F: Fn(Op, u64, u64) -> u64>(
    f: F,
    m: Matrix4,
    k: spec_fn(int, int) -> int,
    p: Point3,
    x: int,
    y: int,
    z: int,
)
    requires
        rounding::is_rounding(f),
        is_table(m, k, 0x1000_0000),
        is_spot(p, x, y, z, 0x10_0000),
        k(3, 0) * x + k(3, 1) * y + k(3, 2) * z + k(3, 3) != 0,
    ensures
        ({
            let q = matrix::point_of(f, m, p);
            let at = |i: int| k(i, 0) * x + k(i, 1) * y + k(i, 2) * z + k(i, 3);
            let w = rounding::whole();
            &&& at(3) == 1 ==> is_count(q.x, at(0)) && is_count(q.y, at(1)) && is_count(q.z, at(2))
            &&& at(3) > 1 ==> rounding::rounds_to(q.x, (at(0) * w) * w, at(3) * w)
                && rounding::rounds_to(q.y, (at(1) * w) * w, at(3) * w) && rounding::rounds_to(
                q.z,
                (at(2) * w) * w,
                at(3) * w,
            )
        }),
{
    rows_act(f, m, k, p, x, y, z, 0x1000_0000, 0x10_0000);
    let at = |i: int| k(i, 0) * x + k(i, 1) * y + k(i, 2) * z + k(i, 3);
    let d = matrix::row_at(f, m.d, p);
    next_to_one(f, d, at(3));
    if at(3) > 1 {
        lemma_pow2_pos(1074);
        reveal(rounding::is_rounding);
        let (s, w) = (at(3), pow2(1074) as int);
        assert(s * w > 0) by (nonlinear_arith)
            requires
                s > 1,
                w > 0,
        ;
    }
}

proof fn rows_act<F: Fn(Op, u64, u64) -> u64>(
    f: F,
    m: Matrix4,
    k: spec_fn(int, int) -> int,
    p: Point3,
    x: int,
    y: int,
    z: int,
    most: int,
    far: int,
)
    requires
        rounding::is_rounding(f),
        is_table(m, k, most),
        is_spot(p, x, y, z, far),
        0 <= most <= 0x1000_0000,
        1 <= far,
        most * far <= 0x1_0000_0000_0000,
    ensures
        is_count(matrix::row_at(f, m.a, p), k(0, 0) * x + k(0, 1) * y + k(0, 2) * z + k(0, 3)),
        is_count(matrix::row_at(f, m.b, p), k(1, 0) * x + k(1, 1) * y + k(1, 2) * z + k(1, 3)),
        is_count(matrix::row_at(f, m.c, p), k(2, 0) * x + k(2, 1) * y + k(2, 2) * z + k(2, 3)),
        is_count(matrix::row_at(f, m.d, p), k(3, 0) * x + k(3, 1) * y + k(3, 2) * z + k(3, 3)),
        is_count(
            matrix::row_times(f, m.a, p.x, p.y, p.z),
            k(0, 0) * x + k(0, 1) * y + k(0, 2) * z,
        ),
        is_count(
            matrix::row_times(f, m.b, p.x, p.y, p.z),
            k(1, 0) * x + k(1, 1) * y + k(1, 2) * z,
        ),
        is_count(
            matrix::row_times(f, m.c, p.x, p.y, p.z),
            k(2, 0) * x + k(2, 1) * y + k(2, 2) * z,
        ),
        is_within(k(0, 0) * x + k(0, 1) * y + k(0, 2) * z, 3 * (most * far)),
        is_within(k(1, 0) * x + k(1, 1) * y + k(1, 2) * z, 3 * (most * far)),
        is_within(k(2, 0) * x + k(2, 1) * y + k(2, 2) * z, 3 * (most * far)),
        is_within(k(0, 0) * x + k(0, 1) * y + k(0, 2) * z + k(0, 3), 4 * (most * far)),
        is_within(k(1, 0) * x + k(1, 1) * y + k(1, 2) * z + k(1, 3), 4 * (most * far)),
        is_within(k(2, 0) * x + k(2, 1) * y + k(2, 2) * z + k(2, 3), 4 * (most * far)),
        is_within(k(3, 0) * x + k(3, 1) * y + k(3, 2) * z + k(3, 3), 4 * (most * far)),
{
    entries_count(m, k, most);
    assert(most <= most * far) by (nonlinear_arith)
        requires
            0 <= most,
            1 <= far,
    ;
    row_counts(f, m.a, k(0, 0), k(0, 1), k(0, 2), k(0, 3), p, x, y, z, most, far);
    row_counts(f, m.b, k(1, 0), k(1, 1), k(1, 2), k(1, 3), p, x, y, z, most, far);
    row_counts(f, m.c, k(2, 0), k(2, 1), k(2, 2), k(2, 3), p, x, y, z, most, far);
    row_counts(f, m.d, k(3, 0), k(3, 1), k(3, 2), k(3, 3), p, x, y, z, most, far);
}

/// The entries of a matrix of whole numbers, one by one.
proof fn entries_count(m: Matrix4, k: spec_fn(int, int) -> int, most: int)
    requires
        is_table(m, k, most),
    ensures
        is_count(m.a.x, k(0, 0)) && is_within(k(0, 0), most),
        is_count(m.a.y, k(0, 1)) && is_within(k(0, 1), most),
        is_count(m.a.z, k(0, 2)) && is_within(k(0, 2), most),
        is_count(m.a.w, k(0, 3)) && is_within(k(0, 3), most),
        is_count(m.b.x, k(1, 0)) && is_within(k(1, 0), most),
        is_count(m.b.y, k(1, 1)) && is_within(k(1, 1), most),
        is_count(m.b.z, k(1, 2)) && is_within(k(1, 2), most),
        is_count(m.b.w, k(1, 3)) && is_within(k(1, 3), most),
        is_count(m.c.x, k(2, 0)) && is_within(k(2, 0), most),
        is_count(m.c.y, k(2, 1)) && is_within(k(2, 1), most),
        is_count(m.c.z, k(2, 2)) && is_within(k(2, 2), most),
        is_count(m.c.w, k(2, 3)) && is_within(k(2, 3), most),
        is_count(m.d.x, k(3, 0)) && is_within(k(3, 0), most),
        is_count(m.d.y, k(3, 1)) && is_within(k(3, 1), most),
        is_count(m.d.z, k(3, 2)) && is_within(k(3, 2), most),
        is_count(m.d.w, k(3, 3)) && is_within(k(3, 3), most),
{
    assert(is_count(matrix::entry(m, 0, 0), k(0, 0)));
    assert(is_count(matrix::entry(m, 0, 1), k(0, 1)));
    assert(is_count(matrix::entry(m, 0, 2), k(0, 2)));
    assert(is_count(matrix::entry(m, 0, 3), k(0, 3)));
    assert(is_count(matrix::entry(m, 1, 0), k(1, 0)));
    assert(is_count(matrix::entry(m, 1, 1), k(1, 1)));
    assert(is_count(matrix::entry(m, 1, 2), k(1, 2)));
    assert(is_count(matrix::entry(m, 1, 3), k(1, 3)));
    assert(is_count(matrix::entry(m, 2, 0), k(2, 0)));
    assert(is_count(matrix::entry(m, 2, 1), k(2, 1)));
    assert(is_count(matrix::entry(m, 2, 2), k(2, 2)));
    assert(is_count(matrix::entry(m, 2, 3), k(2, 3)));
    assert(is_count(matrix::entry(m, 3, 0), k(3, 0)));
    assert(is_count(matrix::entry(m, 3, 1), k(3, 1)));
    assert(is_count(matrix::entry(m, 3, 2), k(3, 2)));
    assert(is_count(matrix::entry(m, 3, 3), k(3, 3)));
}

/// A transform takes a vector to what each of its rows makes of it, whatever it adds to points.
pub proof fn vectors_do_not_move<F: Fn(Op, u64, u64) -> u64>(
    f: F,
    m: Matrix4,
    k: spec_fn(int, int) -> int,
    v: Vec3,
    x: int,
    y: int,
    z: int,
)
    requires
        rounding::is_rounding(f),
        is_table(m, k, 0x1000_0000),
        is_arrow(v, x, y, z, 0x10_0000),
    ensures
        ({
            let q = matrix::vector_of(f, m, v);
            &&& is_count(q.x, k(0, 0) * x + k(0, 1) * y + k(0, 2) * z)
            &&& is_count(q.y, k(1, 0) * x + k(1, 1) * y + k(1, 2) * z)
            &&& is_count(q.z, k(2, 0) * x + k(2, 1) * y + k(2, 2) * z)
        }),
{
    rows_act(f, m, k, Point3::of(v.x, v.y, v.z), x, y, z, 0x1000_0000, 0x10_0000);
}

/// Taking a normal back by a matrix is the other side of taking a vector by it: the product of the
/// one result with the vector is that of the normal with the other. So what was at right angles
/// to a surface stays so.
#[verifier::spinoff_prover]
#[verifier::rlimit(40)]
pub proof fn normals_stay_across<F: Fn(Op, u64, u64) -> u64>(
    f: F,
    m: Matrix4,
    k: spec_fn(int, int) -> int,
    v: Vec3,
    x: int,
    y: int,
    z: int,
    n: Vec3,
    a: int,
    b: int,
    c: int,
)
    requires
        rounding::is_rounding(f),
        is_table(m, k, 0x400),
        is_arrow(v, x, y, z, 0x400),
        is_arrow(n, a, b, c, 0x400),
    ensures
        exists|s: int|
            is_count(arith::dot_product(f, matrix::normal_of(f, m, n), v), s) && #[trigger] is_count(
                arith::dot_product(f, n, matrix::vector_of(f, m, v)),
                s,
            ),
{
    entries_count(m, k, 0x400);
    rows_act(f, m, k, Point3::of(v.x, v.y, v.z), x, y, z, 0x400, 0x400);
    let p = Point3::of(n.x, n.y, n.z);
    let (k00, k01, k02) = (k(0, 0), k(0, 1), k(0, 2));
    let (k10, k11, k12) = (k(1, 0), k(1, 1), k(1, 2));
    let (k20, k21, k22) = (k(2, 0), k(2, 1), k(2, 2));
    row_counts(
        f,
        Row { x: m.a.x, y: m.b.x, z: m.c.x, w: m.d.w },
        k00,
        k10,
        k20,
        k(3, 3),
        p,
        a,
        b,
        c,
        0x400,
        0x400,
    );
    row_counts(
        f,
        Row { x: m.a.y, y: m.b.y, z: m.c.y, w: m.d.w },
        k01,
        k11,
        k21,
        k(3, 3),
        p,
        a,
        b,
        c,
        0x400,
        0x400,
    );
    row_counts(
        f,
        Row { x: m.a.z, y: m.b.z, z: m.c.z, w: m.d.w },
        k02,
        k12,
        k22,
        k(3, 3),
        p,
        a,
        b,
        c,
        0x400,
        0x400,
    );
    let q = matrix::normal_of(f, m, n);
    let (qx, qy, qz) = (
        k00 * a + k10 * b + k20 * c,
        k01 * a + k11 * b + k21 * c,
        k02 * a + k12 * b + k22 * c,
    );
    let r = matrix::vector_of(f, m, v);
    let (rx, ry, rz) = (
        k00 * x + k01 * y + k02 * z,
        k10 * x + k11 * y + k12 * z,
        k20 * x + k21 * y + k22 * z,
    );
    dots_count(f, q, qx, qy, qz, v, x, y, z);
    dots_count(f, n, a, b, c, r, rx, ry, rz);
    adjoint(k00, k01, k02, k10, k11, k12, k20, k21, k22, a, b, c, x, y, z);
    assert(is_count(arith::dot_product(f, n, r), a * rx + b * ry + c * rz));
}

/// The sums of the products of nine numbers with three and three others, by columns and by rows.
proof fn adjoint(
    k00: int,
    k01: int,
    k02: int,
    k10: int,
    k11: int,
    k12: int,
    k20: int,
    k21: int,
    k22: int,
    a: int,
    b: int,
    c: int,
    x: int,
    y: int,
    z: int,
)
    ensures
        (k00 * a + k10 * b + k20 * c) * x + (k01 * a + k11 * b + k21 * c) * y + (k02 * a + k12 * b + k22
            * c) * z == a * (k00 * x + k01 * y + k02 * z) + b * (k10 * x + k11 * y + k12 * z) + c * (k20
            * x + k21 * y + k22 * z),
{
    spread(k00 * a, k10 * b, k20 * c, x);
    spread(k01 * a, k11 * b, k21 * c, y);
    spread(k02 * a, k12 * b, k22 * c, z);
    spread(k00 * x, k01 * y, k02 * z, a);
    in_turn(k00, a, x);
    in_turn(k01, a, y);
    in_turn(k02, a, z);
    spread(k10 * x, k11 * y, k12 * z, b);
    in_turn(k10, b, x);
    in_turn(k11, b, y);
    in_turn(k12, b, z);
    spread(k20 * x, k21 * y, k22 * z, c);
    in_turn(k20, c, x);
    in_turn(k21, c, y);
    in_turn(k22, c, z);
}

/// The product of two vectors of whole numbers.
pub proof fn dots_count<F: Fn(Op, u64, u64) -> u64>(
    f: F,
    v: Vec3,
    a: int,
    b: int,
    c: int,
    w: Vec3,
    x: int,
    y: int,
    z: int,
)
    requires
        rounding::is_rounding(f),
        is_arrow(v, a, b, c, 0x30_0000),
        is_arrow(w, x, y, z, 0x30_0000),
    ensures
        is_count(arith::dot_product(f, v, w), a * x + b * y + c * z),
{
    small_counts();
    row_counts(
        f,
        Row { x: v.x, y: v.y, z: v.z, w: ZERO },
        a,
        b,
        c,
        0,
        Point3::of(w.x, w.y, w.z),
        x,
        y,
        z,
        0x30_0000,
        0x30_0000,
    );
}

// ---- how they multiply -----------------------------------------------------

/// An entry of a product of matrices of whole numbers.
proof fn product_counts<F: Fn(Op, u64, u64) -> u64>(
    f: F,
    r: Row,
    a: int,
    b: int,
    c: int,
    d: int,
    n: Matrix4,
    l: spec_fn(int, int) -> int,
    j: int,
)
    requires
        rounding::is_rounding(f),
        is_count(r.x, a) && is_count(r.y, b) && is_count(r.z, c) && is_count(r.w, d),
        is_within(a, 0x1000) && is_within(b, 0x1000) && is_within(c, 0x1000) && is_within(d, 0x1000),
        is_table(n, l, 0x1000),
        0 <= j < 4,
    ensures
        is_count(
            matrix::product_entry(f, r, n, j),
            a * l(0, j) + b * l(1, j) + c * l(2, j) + d * l(3, j),
        ),
        is_within(a * l(0, j) + b * l(1, j) + c * l(2, j) + d * l(3, j), 0x400_0000),
{
    small_counts();
    let (e0, e1, e2, e3) = (
        matrix::entry(n, 0, j),
        matrix::entry(n, 1, j),
        matrix::entry(n, 2, j),
        matrix::entry(n, 3, j),
    );
    times_counts(f, r.x, a, e0, l(0, j), 0x1000, 0x1000);
    times_counts(f, r.y, b, e1, l(1, j), 0x1000, 0x1000);
    times_counts(f, r.z, c, e2, l(2, j), 0x1000, 0x1000);
    times_counts(f, r.w, d, e3, l(3, j), 0x1000, 0x1000);
    let (p0, p1) = (arith::product(f, r.x, e0), arith::product(f, r.y, e1));
    let (p2, p3) = (arith::product(f, r.z, e2), arith::product(f, r.w, e3));
    plus_counts(f, ZERO, 0, p0, a * l(0, j));
    let s = arith::sum(f, ZERO, p0);
    plus_counts(f, s, a * l(0, j), p1, b * l(1, j));
    let t = arith::sum(f, s, p1);
    plus_counts(f, t, a * l(0, j) + b * l(1, j), p2, c * l(2, j));
    let u = arith::sum(f, t, p2);
    plus_counts(f, u, a * l(0, j) + b * l(1, j) + c * l(2, j), p3, d * l(3, j));
}

/// The table of a product.
pub open spec fn table_product(k: spec_fn(int, int) -> int, l: spec_fn(int, int) -> int) -> spec_fn(
    int,
    int,
) -> int {
    |i: int, j: int| k(i, 0) * l(0, j) + k(i, 1) * l(1, j) + k(i, 2) * l(2, j) + k(i, 3) * l(3, j)
}

/// A product of matrices has, in each row and column, the row of the left one times the column of
/// the right one.
pub proof fn products_are_rows_times_columns<F: Fn(Op, u64, u64) -> u64>(
    f: F,
    m: Matrix4,
    k: spec_fn(int, int) -> int,
    n: Matrix4,
    l: spec_fn(int, int) -> int,
)
    requires
        rounding::is_rounding(f),
        is_table(m, k, 0x1000),
        is_table(n, l, 0x1000),
    ensures
        is_table(matrix::product_of(f, m, n), table_product(k, l), 0x400_0000),
{
    entries_count(m, k, 0x1000);
    let (t, r) = (table_product(k, l), matrix::product_of(f, m, n));
    assert forall|i: int, j: int| 0 <= i < 4 && 0 <= j < 4 implies is_count(
        #[trigger] matrix::entry(r, i, j),
        t(i, j),
    ) && is_within(t(i, j), 0x400_0000) by {
        product_counts(f, matrix::row(m, i), k(i, 0), k(i, 1), k(i, 2), k(i, 3), n, l, j);
        assert(matrix::entry(r, i, j) == matrix::product_entry(f, matrix::row(m, i), n, j));
    }
}

/// A product takes a point where the left factor takes it after the right one.
pub proof fn products_apply_the_right_first<F: Fn(Op, u64, u64) -> u64>(
    f: F,
    m: Matrix4,
    k: spec_fn(int, int) -> int,
    n: Matrix4,
    l: spec_fn(int, int) -> int,
    p: Point3,
    x: int,
    y: int,
    z: int,
)
    requires
        rounding::is_rounding(f),
        is_table(m, k, 0x1000),
        is_table(n, l, 0x1000),
        is_affine(k) && is_affine(l),
        is_spot(p, x, y, z, 0x4000),
    ensures
        ({
            let once = matrix::point_of(f, matrix::product_of(f, m, n), p);
            let twice = matrix::point_of(f, m, matrix::point_of(f, n, p));
            &&& double::is_finite(once.x) && double::is_finite(once.y) && double::is_finite(once.z)
            &&& double::is_finite(twice.x) && double::is_finite(twice.y) && double::is_finite(twice.z)
            &&& near::exact(once.x) == near::exact(twice.x)
            &&& near::exact(once.y) == near::exact(twice.y)
            &&& near::exact(once.z) == near::exact(twice.z)
        }),
{
    products_are_rows_times_columns(f, m, k, n, l);
    let t = table_product(k, l);
    let r = matrix::product_of(f, m, n);
    last_row(k, l);
    rows_act(f, r, t, p, x, y, z, 0x400_0000, 0x4000);
    rows_act(f, n, l, p, x, y, z, 0x1000, 0x4000);
    let q = matrix::point_of(f, n, p);
    assert(0 * x == 0 && 0 * y == 0 && 0 * z == 0);
    next_to_one(f, matrix::row_at(f, n.d, p), 1);
    next_to_one(f, matrix::row_at(f, r.d, p), 1);
    let qx = l(0, 0) * x + l(0, 1) * y + l(0, 2) * z + l(0, 3);
    let qy = l(1, 0) * x + l(1, 1) * y + l(1, 2) * z + l(1, 3);
    let qz = l(2, 0) * x + l(2, 1) * y + l(2, 2) * z + l(2, 3);
    rows_act(f, m, k, q, qx, qy, qz, 0x1000, 0x1000_0000);
    assert(0 * qx == 0 && 0 * qy == 0 && 0 * qz == 0);
    next_to_one(f, matrix::row_at(f, m.d, q), 1);
    row_after_row(k, l, 0, x, y, z);
    row_after_row(k, l, 1, x, y, z);
    row_after_row(k, l, 2, x, y, z);
}

proof fn last_row(k: spec_fn(int, int) -> int, l: spec_fn(int, int) -> int)
    requires
        is_affine(k) && is_affine(l),
    ensures
        is_affine(table_product(k, l)),
{
    assert forall|j: int| 0 <= j < 4 implies #[trigger] table_product(k, l)(3, j) == l(3, j) by {
        assert(0 * l(0, j) == 0 && 0 * l(1, j) == 0 && 0 * l(2, j) == 0 && 1 * l(3, j) == l(3, j));
    }
}

proof fn row_after_row(k: spec_fn(int, int) -> int, l: spec_fn(int, int) -> int, i: int, x: int, y: int, z: int)
    requires
        is_affine(l),
    ensures
        ({
            let t = table_product(k, l);
            let qx = l(0, 0) * x + l(0, 1) * y + l(0, 2) * z + l(0, 3);
            let qy = l(1, 0) * x + l(1, 1) * y + l(1, 2) * z + l(1, 3);
            let qz = l(2, 0) * x + l(2, 1) * y + l(2, 2) * z + l(2, 3);
            t(i, 0) * x + t(i, 1) * y + t(i, 2) * z + t(i, 3) == k(i, 0) * qx + k(i, 1) * qy + k(i, 2)
                * qz + k(i, 3)
        }),
{
    let (a, b, c, d) = (k(i, 0), k(i, 1), k(i, 2), k(i, 3));
    let (p0, p1, p2, p3) = (l(0, 0), l(0, 1), l(0, 2), l(0, 3));
    let (q0, q1, q2, q3) = (l(1, 0), l(1, 1), l(1, 2), l(1, 3));
    let (r0, r1, r2, r3) = (l(2, 0), l(2, 1), l(2, 2), l(2, 3));
    assert(d * 0 == 0 && d * 1 == d);
    spread(a * p0, b * q0, c * r0, x);
    in_turn(a, p0, x);
    in_turn(b, q0, x);
    in_turn(c, r0, x);
    spread(a * p1, b * q1, c * r1, y);
    in_turn(a, p1, y);
    in_turn(b, q1, y);
    in_turn(c, r1, y);
    spread(a * p2, b * q2, c * r2, z);
    in_turn(a, p2, z);
    in_turn(b, q2, z);
    in_turn(c, r2, z);
    spread(p0 * x, p1 * y, p2 * z + p3, a);
    spread(p2 * z, p3, 0, a);
    spread(q0 * x, q1 * y, q2 * z + q3, b);
    spread(q2 * z, q3, 0, b);
    spread(r0 * x, r1 * y, r2 * z + r3, c);
    spread(r2 * z, r3, 0, c);
}

// ---- turns -----------------------------------------------------------------

/// Whether a vector has these components, as numbers.
pub open spec fn is_worth(v: Vec3, x: int, y: int, z: int) -> bool {
    &&& double::is_finite(v.x) && double::is_finite(v.y) && double::is_finite(v.z)
    &&& near::exact(v.x) == x && near::exact(v.y) == y && near::exact(v.z) == z
}

/// A row times one of the axes is an entry of it.
proof fn row_of_axis<F: Fn(Op, u64, u64) -> u64>(f: F, r: Row)
    requires
        rounding::is_rounding(f),
        double::is_finite(r.x) && double::is_finite(r.y) && double::is_finite(r.z),
    ensures
        ({
            let p = matrix::row_times(f, r, ONE, ZERO, ZERO);
            let q = matrix::row_times(f, r, ZERO, ONE, ZERO);
            let s = matrix::row_times(f, r, ZERO, ZERO, ONE);
            &&& double::is_finite(p) && near::exact(p) == near::exact(r.x)
            &&& double::is_finite(q) && near::exact(q) == near::exact(r.y)
            &&& double::is_finite(s) && near::exact(s) == near::exact(r.z)
        }),
{
    rounding::nought_and_one();
    rounding::product_with_one(f, r.x, ONE);
    rounding::product_with_one(f, r.y, ONE);
    rounding::product_with_one(f, r.z, ONE);
    rounding::product_with_nought(f, r.x, ZERO);
    rounding::product_with_nought(f, r.y, ZERO);
    rounding::product_with_nought(f, r.z, ZERO);
    let (x, y, z) = (
        arith::product(f, r.x, ONE),
        arith::product(f, r.y, ONE),
        arith::product(f, r.z, ONE),
    );
    let (o, p, q) = (
        arith::product(f, r.x, ZERO),
        arith::product(f, r.y, ZERO),
        arith::product(f, r.z, ZERO),
    );
    rounding::sum_with_nought(f, x, p);
    rounding::sum_with_nought(f, arith::sum(f, x, p), q);
    rounding::sum_with_nought(f, y, o);
    rounding::sum_with_nought(f, arith::sum(f, o, y), q);
    rounding::sum_with_nought(f, o, p);
    rounding::sum_with_nought(f, z, arith::sum(f, o, p));
}

/// A turn about an axis keeps that axis, and takes each of the other two towards the next, from x
/// to y, from y to z and from z to x, by the cosine and the sine of the angle.
pub proof fn turns_go_from_axis_to_axis<F: Fn(Op, u64, u64) -> u64>(f: F, angle: u64)
    requires
        rounding::is_rounding(f),
        ({
            let rad = arith::value(f, Op::Radians, angle, 0);
            double::is_finite(arith::value(f, Op::Sine, rad, 0)) && double::is_finite(
                arith::value(f, Op::Cosine, rad, 0),
            )
        }),
    ensures
        ({
            let rad = arith::value(f, Op::Radians, angle, 0);
            let s = near::exact(arith::value(f, Op::Sine, rad, 0));
            let c = near::exact(arith::value(f, Op::Cosine, rad, 0));
            let (x, y) = (Vec3::of(ONE, ZERO, ZERO), Vec3::of(ZERO, ONE, ZERO));
            let z = Vec3::of(ZERO, ZERO, ONE);
            let w = rounding::whole();
            let about_x = Matrix4::rotate_x_of(f, angle);
            let about_y = Matrix4::rotate_y_of(f, angle);
            let about_z = Matrix4::rotate_z_of(f, angle);
            &&& is_worth(matrix::vector_of(f, about_x, x), w, 0, 0)
            &&& is_worth(matrix::vector_of(f, about_x, y), 0, c, s)
            &&& is_worth(matrix::vector_of(f, about_x, z), 0, -s, c)
            &&& is_worth(matrix::vector_of(f, about_y, y), 0, w, 0)
            &&& is_worth(matrix::vector_of(f, about_y, z), s, 0, c)
            &&& is_worth(matrix::vector_of(f, about_y, x), c, 0, -s)
            &&& is_worth(matrix::vector_of(f, about_z, z), 0, 0, w)
            &&& is_worth(matrix::vector_of(f, about_z, x), c, s, 0)
            &&& is_worth(matrix::vector_of(f, about_z, y), -s, c, 0)
        }),
{
    let (sin, cos) = matrix::turn(f, angle);
    rounding::negation_is_exact(sin);
    rounding::nought_and_one();
    let about_x = Matrix4::rotate_x_of(f, angle);
    let about_y = Matrix4::rotate_y_of(f, angle);
    let about_z = Matrix4::rotate_z_of(f, angle);
    row_of_axis(f, about_x.a);
    row_of_axis(f, about_x.b);
    row_of_axis(f, about_x.c);
    row_of_axis(f, about_y.a);
    row_of_axis(f, about_y.b);
    row_of_axis(f, about_y.c);
    row_of_axis(f, about_z.a);
    row_of_axis(f, about_z.b);
    row_of_axis(f, about_z.c);
}

/// A turn about any axis keeps the part of a vector along the axis, and turns the part across: the
/// cosine of it stays, and the sine goes across both.
pub proof fn turns_keep_what_is_along<F: Fn(Op, u64, u64) -> u64>(
    f: F,
    sin: u64,
    s: int,
    cos: u64,
    c: int,
    axis: Vec3,
    x: int,
    y: int,
    z: int,
    v: Vec3,
    p: int,
    q: int,
    r: int,
)
    requires
        rounding::is_rounding(f),
        is_count(sin, s) && is_within(s, 0x100),
        is_count(cos, c) && is_within(c, 0x100),
        is_arrow(axis, x, y, z, 0x100),
        is_arrow(v, p, q, r, 0x100),
    ensures
        ({
            let t = matrix::vector_of(f, matrix::turned_about(f, sin, cos, axis), v);
            let along = x * p + y * q + z * r;
            &&& is_count(t.x, c * p + (1 - c) * along * x + s * (y * r - z * q))
            &&& is_count(t.y, c * q + (1 - c) * along * y + s * (z * p - x * r))
            &&& is_count(t.z, c * r + (1 - c) * along * z + s * (x * q - y * p))
        }),
{
    small_counts();
    let rest = arith::difference(f, ONE, cos);
    minus_counts(f, ONE, 1, cos, c);
    let m = matrix::turned_about(f, sin, cos, axis);
    turned_entry(f, axis.x, x, axis.x, x, rest, 1 - c, axis.x, x, cos, c);
    turned_entry(f, axis.x, x, axis.y, y, rest, 1 - c, axis.z, z, sin, s);
    turned_entry(f, axis.x, x, axis.z, z, rest, 1 - c, axis.y, y, sin, s);
    turned_entry(f, axis.y, y, axis.x, x, rest, 1 - c, axis.z, z, sin, s);
    turned_entry(f, axis.y, y, axis.y, y, rest, 1 - c, axis.x, x, cos, c);
    turned_entry(f, axis.y, y, axis.z, z, rest, 1 - c, axis.x, x, sin, s);
    turned_entry(f, axis.z, z, axis.x, x, rest, 1 - c, axis.y, y, sin, s);
    turned_entry(f, axis.z, z, axis.y, y, rest, 1 - c, axis.x, x, sin, s);
    turned_entry(f, axis.z, z, axis.z, z, rest, 1 - c, axis.x, x, cos, c);
    let h = 1 - c;
    let spot = Point3::of(v.x, v.y, v.z);
    row_counts(f, m.a, c + x * x * h, x * y * h - z * s, x * z * h + y * s, 0, spot, p, q, r, 0x400_0000, 0x100);
    row_counts(f, m.b, y * x * h + z * s, c + y * y * h, y * z * h - x * s, 0, spot, p, q, r, 0x400_0000, 0x100);
    row_counts(f, m.c, z * x * h - y * s, z * y * h + x * s, c + z * z * h, 0, spot, p, q, r, 0x400_0000, 0x100);
    let along = x * p + y * q + z * r;
    turned_row(x, c, h, s, y, z, p, q, r, along);
    turned_row(y, c, h, s, z, x, q, r, p, along);
    turned_row(z, c, h, s, x, y, r, p, q, along);
    in_turn(y, x, h);
    in_turn(x, y, h);
    assert(y * x == x * y && z * x == x * z && z * y == y * z) by (nonlinear_arith);
}

/// A row of a turn, times a vector: the axis in the order that begins with the row.
proof fn turned_row(x: int, c: int, h: int, s: int, y: int, z: int, p: int, q: int, r: int, along: int)
    requires
        along == x * p + y * q + z * r,
    ensures
        (c + x * x * h) * p + (x * y * h - z * s) * q + (x * z * h + y * s) * r == c * p + h * along * x
            + s * (y * r - z * q),
{
    spread(c, x * x * h, 0, p);
    spread(x * y * h, -(z * s), 0, q);
    spread(x * z * h, y * s, 0, r);
    assert((-(z * s)) * q == -((z * s) * q)) by (nonlinear_arith);
    spread(x * p, y * q, z * r, h);
    spread(h * (x * p), h * (y * q), h * (z * r), x);
    four_in_turn(x, x, h, p);
    four_in_turn(x, y, h, q);
    four_in_turn(x, z, h, r);
    in_turn(z, s, q);
    in_turn(y, s, r);
    assert(s * (y * r - z * q) == s * (y * r) - s * (z * q)) by (nonlinear_arith);
}

/// An entry of a turn: a product of three, and another more or less, or a number more.
proof fn turned_entry<F: Fn(Op, u64, u64) -> u64>(
    f: F,
    a: u64,
    i: int,
    b: u64,
    j: int,
    rest: u64,
    h: int,
    d: u64,
    l: int,
    e: u64,
    s: int,
)
    requires
        rounding::is_rounding(f),
        is_count(a, i) && is_within(i, 0x100),
        is_count(b, j) && is_within(j, 0x100),
        is_count(d, l) && is_within(l, 0x100),
        is_count(e, s) && is_within(s, 0x100),
        is_count(rest, h) && is_within(h, 0x200),
    ensures
        ({
            let t = arith::product(f, arith::product(f, a, b), rest);
            let u = arith::product(f, d, e);
            &&& is_count(arith::sum(f, t, u), i * j * h + l * s)
            &&& is_count(arith::difference(f, t, u), i * j * h - l * s)
            &&& is_count(arith::sum(f, e, t), s + i * j * h)
            &&& is_within(i * j * h + l * s, 0x400_0000)
            &&& is_within(i * j * h - l * s, 0x400_0000)
            &&& is_within(s + i * j * h, 0x400_0000)
        }),
{
    times_counts(f, a, i, b, j, 0x100, 0x100);
    times_counts(f, arith::product(f, a, b), i * j, rest, h, 0x1_0000, 0x200);
    times_counts(f, d, l, e, s, 0x100, 0x100);
    let t = arith::product(f, arith::product(f, a, b), rest);
    let u = arith::product(f, d, e);
    plus_counts(f, t, i * j * h, u, l * s);
    minus_counts(f, t, i * j * h, u, l * s);
    plus_counts(f, e, s, t, i * j * h);
}

/// A turn is about the direction of the axis that is given, whatever its length.
pub proof fn turns_are_about_their_axis<F: Fn(Op, u64, u64) -> u64>(f: F, angle: u64, axis: Vec3)
    ensures
        Matrix4::rotate_of(f, angle, axis) == matrix::turned_about(
            f,
            arith::value(f, Op::Sine, arith::value(f, Op::Radians, angle, 0), 0),
            arith::value(f, Op::Cosine, arith::value(f, Op::Radians, angle, 0), 0),
            arith::unit(f, axis),
        ),
{
}

// ---- how they are undone ---------------------------------------------------

/// A product of three whole numbers.
proof fn triple_counts<F: Fn(Op, u64, u64) -> u64>(f: F, a: u64, i: int, b: u64, j: int, c: u64, l: int)
    requires
        rounding::is_rounding(f),
        is_count(a, i) && is_within(i, 0x400),
        is_count(b, j) && is_within(j, 0x400),
        is_count(c, l) && is_within(l, 0x400),
    ensures
        is_count(matrix::triple_product(f, a, b, c), i * j * l),
        is_within(i * j * l, 0x4000_0000),
{
    times_counts(f, a, i, b, j, 0x400, 0x400);
    times_counts(f, arith::product(f, a, b), i * j, c, l, 0x10_0000, 0x400);
}

/// The determinant of three rows of three.
pub open spec fn three_by_three(e: spec_fn(int, int) -> int) -> int {
    e(0, 0) * e(1, 1) * e(2, 2) - e(0, 0) * e(1, 2) * e(2, 1) - e(1, 0) * e(0, 1) * e(2, 2) + e(1, 0)
        * e(0, 2) * e(2, 1) + e(2, 0) * e(0, 1) * e(1, 2) - e(2, 0) * e(0, 2) * e(1, 1)
}

/// What stands in row `i` and column `j` of the adjugate of a table.
spec fn adjugate(k: spec_fn(int, int) -> int, i: int, j: int) -> int {
    let d = three_by_three(|r: int, c: int| k(matrix::other(j, r), matrix::other(i, c)));
    if (i + j) % 2 == 0 {
        d
    } else {
        -d
    }
}

/// The determinant of a table.
pub open spec fn four_by_four(k: spec_fn(int, int) -> int) -> int {
    k(0, 0) * three_by_three(|r: int, c: int| k(r + 1, matrix::other(0, c))) - k(0, 1) * three_by_three(
        |r: int, c: int| k(r + 1, matrix::other(1, c)),
    ) + k(0, 2) * three_by_three(|r: int, c: int| k(r + 1, matrix::other(2, c))) - k(0, 3)
        * three_by_three(|r: int, c: int| k(r + 1, matrix::other(3, c)))
}

proof fn cofactors_count<F: Fn(Op, u64, u64) -> u64>(
    f: F,
    m: Matrix4,
    k: spec_fn(int, int) -> int,
    i: int,
    j: int,
)
    requires
        rounding::is_rounding(f),
        is_table(m, k, 0x400),
        0 <= i < 4 && 0 <= j < 4,
    ensures
        is_count(matrix::cofactor(f, m, i, j), adjugate(k, i, j)),
        is_within(adjugate(k, i, j), 0x1_8000_0000),
{
    let e = |r: int, c: int| matrix::entry(m, matrix::other(j, r), matrix::other(i, c));
    let t = |r: int, c: int| k(matrix::other(j, r), matrix::other(i, c));
    assert forall|r: int, c: int| 0 <= r < 3 && 0 <= c < 3 implies is_count(#[trigger] e(r, c), t(r, c))
        && is_within(t(r, c), 0x400) by {
        let (a, b) = (matrix::other(j, r), matrix::other(i, c));
        assert(is_count(matrix::entry(m, a, b), k(a, b)));
    }
    let (e00, e01, e02) = (e(0, 0), e(0, 1), e(0, 2));
    let (e10, e11, e12) = (e(1, 0), e(1, 1), e(1, 2));
    let (e20, e21, e22) = (e(2, 0), e(2, 1), e(2, 2));
    let (t00, t01, t02) = (t(0, 0), t(0, 1), t(0, 2));
    let (t10, t11, t12) = (t(1, 0), t(1, 1), t(1, 2));
    let (t20, t21, t22) = (t(2, 0), t(2, 1), t(2, 2));
    triple_counts(f, e00, t00, e12, t12, e21, t21);
    triple_counts(f, e10, t10, e01, t01, e22, t22);
    triple_counts(f, e10, t10, e02, t02, e21, t21);
    triple_counts(f, e20, t20, e01, t01, e12, t12);
    triple_counts(f, e20, t20, e02, t02, e11, t11);
    let q = matrix::triple_product(f, e00, e12, e21);
    let r = matrix::triple_product(f, e10, e01, e22);
    let s = matrix::triple_product(f, e10, e02, e21);
    let v = matrix::triple_product(f, e20, e01, e12);
    let u = matrix::triple_product(f, e20, e02, e11);
    let (iq, ir, is, iv, iu) = (
        t00 * t12 * t21,
        t10 * t01 * t22,
        t10 * t02 * t21,
        t20 * t01 * t12,
        t20 * t02 * t11,
    );
    if (i + j) % 2 == 0 {
        triple_counts(f, e00, t00, e11, t11, e22, t22);
        let p = matrix::triple_product(f, e00, e11, e22);
        let ip = t00 * t11 * t22;
        minus_counts(f, p, ip, q, iq);
        let x1 = arith::difference(f, p, q);
        minus_counts(f, x1, ip - iq, r, ir);
        let x2 = arith::difference(f, x1, r);
        plus_counts(f, x2, ip - iq - ir, s, is);
        let x3 = arith::sum(f, x2, s);
        plus_counts(f, x3, ip - iq - ir + is, v, iv);
        let x4 = arith::sum(f, x3, v);
        minus_counts(f, x4, ip - iq - ir + is + iv, u, iu);
    } else {
        let n = double::negated(e00);
        rounding::negation_is_exact(e00);
        let w = pow2(1074) as int;
        assert(-(t00 * w) == (-t00) * w) by (nonlinear_arith);
        assert(is_count(n, -t00));
        triple_counts(f, n, -t00, e11, t11, e22, t22);
        let p = matrix::triple_product(f, n, e11, e22);
        let ip = t00 * t11 * t22;
        assert((-t00) * t11 * t22 == -ip) by (nonlinear_arith)
            requires
                ip == t00 * t11 * t22,
        ;
        plus_counts(f, p, -ip, q, iq);
        let x1 = arith::sum(f, p, q);
        plus_counts(f, x1, -ip + iq, r, ir);
        let x2 = arith::sum(f, x1, r);
        minus_counts(f, x2, -ip + iq + ir, s, is);
        let x3 = arith::difference(f, x2, s);
        minus_counts(f, x3, -ip + iq + ir - is, v, iv);
        let x4 = arith::difference(f, x3, v);
        plus_counts(f, x4, -ip + iq + ir - is - iv, u, iu);
    }
}

/// The determinant of a matrix of whole numbers.
pub proof fn determinants_count<F: Fn(Op, u64, u64) -> u64>(f: F, m: Matrix4, k: spec_fn(int, int) -> int)
    requires
        rounding::is_rounding(f),
        is_table(m, k, 0x400),
    ensures
        is_count(matrix::determinant(f, m), four_by_four(k)),
        is_within(four_by_four(k), 0x2000_0000_0000),
{
    entries_count(m, k, 0x400);
    cofactors_count(f, m, k, 0, 0);
    cofactors_count(f, m, k, 1, 0);
    cofactors_count(f, m, k, 2, 0);
    cofactors_count(f, m, k, 3, 0);
    let (a, b) = (matrix::cofactor(f, m, 0, 0), matrix::cofactor(f, m, 1, 0));
    let (c, d) = (matrix::cofactor(f, m, 2, 0), matrix::cofactor(f, m, 3, 0));
    let (ia, ib) = (adjugate(k, 0, 0), adjugate(k, 1, 0));
    let (ic, id) = (adjugate(k, 2, 0), adjugate(k, 3, 0));
    times_counts(f, m.a.x, k(0, 0), a, ia, 0x400, 0x1_8000_0000);
    times_counts(f, m.a.y, k(0, 1), b, ib, 0x400, 0x1_8000_0000);
    times_counts(f, m.a.z, k(0, 2), c, ic, 0x400, 0x1_8000_0000);
    times_counts(f, m.a.w, k(0, 3), d, id, 0x400, 0x1_8000_0000);
    let (p, q) = (arith::product(f, m.a.x, a), arith::product(f, m.a.y, b));
    let (r, s) = (arith::product(f, m.a.z, c), arith::product(f, m.a.w, d));
    plus_counts(f, p, k(0, 0) * ia, q, k(0, 1) * ib);
    plus_counts(f, arith::sum(f, p, q), k(0, 0) * ia + k(0, 1) * ib, r, k(0, 2) * ic);
    plus_counts(
        f,
        arith::sum(f, arith::sum(f, p, q), r),
        k(0, 0) * ia + k(0, 1) * ib + k(0, 2) * ic,
        s,
        k(0, 3) * id,
    );
    along_the_first_row(k);
}

proof fn along_the_first_row(k: spec_fn(int, int) -> int)
    ensures
        four_by_four(k) == k(0, 0) * adjugate(k, 0, 0) + k(0, 1) * adjugate(k, 1, 0) + k(0, 2)
            * adjugate(k, 2, 0) + k(0, 3) * adjugate(k, 3, 0),
{
    let d1 = three_by_three(|r: int, c: int| k(r + 1, matrix::other(1, c)));
    let d3 = three_by_three(|r: int, c: int| k(r + 1, matrix::other(3, c)));
    assert(adjugate(k, 0, 0) == three_by_three(|r: int, c: int| k(r + 1, matrix::other(0, c))));
    assert(adjugate(k, 1, 0) == -d1);
    assert(adjugate(k, 2, 0) == three_by_three(|r: int, c: int| k(r + 1, matrix::other(2, c))));
    assert(adjugate(k, 3, 0) == -d3);
    let (a, b) = (k(0, 1), k(0, 3));
    assert(a * (-d1) == -(a * d1)) by (nonlinear_arith);
    assert(b * (-d3) == -(b * d3)) by (nonlinear_arith);
}

/// What the inverse of a matrix of whole numbers has in a row and a column, times the determinant.
proof fn inverse_counts<F: Fn(Op, u64, u64) -> u64>(
    f: F,
    m: Matrix4,
    k: spec_fn(int, int) -> int,
    i: int,
    j: int,
    s: nat,
)
    requires
        rounding::is_rounding(f),
        is_table(m, k, 0x400),
        four_by_four(k) == pow2(s) || four_by_four(k) == -pow2(s),
        s <= 45,
        0 <= i < 4 && 0 <= j < 4,
    ensures
        ({
            let r = arith::product(
                f,
                matrix::cofactor(f, m, i, j),
                arith::quotient(f, ONE, matrix::determinant(f, m)),
            );
            double::is_finite(r) && near::exact(r) * four_by_four(k) == adjugate(k, i, j) * pow2(1074)
        }),
{
    determinants_count(f, m, k);
    cofactors_count(f, m, k, i, j);
    small_counts();
    let det = matrix::determinant(f, m);
    let d: int = if four_by_four(k) == pow2(s) {
        1
    } else {
        -1
    };
    let (x, y) = (pow2(s) as int, pow2(1074) as int);
    lemma_pow2_adds(s, 1074);
    assert((d * x) * y == d * (x * y)) by (nonlinear_arith);
    assert(-1 * x == -x && 1 * x == x);
    assert(rounding::is_step(det, d, 1074 + s));
    assert(d * d == 1) by (nonlinear_arith)
        requires
            d == 1 || d == -1,
    ;
    rounding::quotient_of_steps(f, ONE, d, 1074, det, d, 1074 + s);
    let by = arith::quotient(f, ONE, det);
    let v = (1074 - s) as nat;
    let a = adjugate(k, i, j);
    assert(is_within(a * d, 0x1_8000_0000)) by (nonlinear_arith)
        requires
            is_within(a, 0x1_8000_0000),
            d == 1 || d == -1,
    ;
    rounding::product_of_steps(f, matrix::cofactor(f, m, i, j), a, 1074, by, d, v);
    lemma_pow2_adds(s, v);
    let z = pow2(v) as int;
    assert(((a * d) * z) * (d * x) == a * (x * z)) by (nonlinear_arith)
        requires
            d * d == 1,
    ;
}

/// Where a matrix of whole numbers has no determinant it has no inverse, and where that is not
/// nothing it has one.
pub proof fn inverses_are_there<F: Fn(Op, u64, u64) -> u64>(f: F, m: Matrix4, k: spec_fn(int, int) -> int)
    requires
        rounding::is_rounding(f),
        is_table(m, k, 0x400),
    ensures
        matrix::inverse_of(f, m) is None <==> four_by_four(k) == 0,
{
    determinants_count(f, m, k);
    let d = matrix::determinant(f, m);
    rounding::magnitude_is_exact(d);
    rounding::order_tells(double::magnitude(d), EPSILON);
    less_than_one();
    lemma_pow2_pos(1074);
    let (h, w) = (four_by_four(k), pow2(1074) as int);
    assert(h != 0 ==> near::gap(h * w, 0) >= w) by (nonlinear_arith)
        requires
            w > 0,
            near::gap(h * w, 0) == h * w || near::gap(h * w, 0) == -(h * w),
            near::gap(h * w, 0) >= 0,
    ;
    assert(0 * w == 0);
}

/// The table of a stretch along the axes and a move behind it.
pub open spec fn stretched(a: int, b: int, c: int, x: int, y: int, z: int) -> spec_fn(int, int) -> int {
    |i: int, j: int|
        if i == j {
            if i == 0 {
                a
            } else if i == 1 {
                b
            } else if i == 2 {
                c
            } else {
                1
            }
        } else if j == 3 {
            if i == 0 {
                x
            } else if i == 1 {
                y
            } else {
                z
            }
        } else {
            0
        }
}

proof fn noughts(a: int, b: int)
    ensures
        a * b * 0 == 0 && a * 0 * b == 0 && 0 * a * b == 0,
        a * 1 == a && a * 0 == 0 && 0 * a == 0,
        (-a) * b == -(a * b),
{
    assert((-a) * b == -(a * b)) by (nonlinear_arith);
    assert(a * b * 0 == 0 && a * 0 * b == 0 && 0 * a * b == 0) by (nonlinear_arith);
}

/// The determinant, and the rows of the adjugate, of a stretch and a move.
proof fn stretched_adjugate(a: int, b: int, c: int, x: int, y: int, z: int)
    ensures
        ({
            let k = stretched(a, b, c, x, y, z);
            &&& four_by_four(k) == a * (b * c)
            &&& adjugate(k, 0, 0) == b * c && adjugate(k, 0, 1) == 0 && adjugate(k, 0, 2) == 0
            &&& adjugate(k, 0, 3) == -((b * c) * x)
            &&& adjugate(k, 1, 1) == a * c && adjugate(k, 1, 0) == 0 && adjugate(k, 1, 2) == 0
            &&& adjugate(k, 1, 3) == -((a * c) * y)
            &&& adjugate(k, 2, 2) == a * b && adjugate(k, 2, 0) == 0 && adjugate(k, 2, 1) == 0
            &&& adjugate(k, 2, 3) == -((a * b) * z)
            &&& adjugate(k, 3, 0) == 0 && adjugate(k, 3, 1) == 0 && adjugate(k, 3, 2) == 0
            &&& adjugate(k, 3, 3) == a * (b * c)
        }),
{
    let k = stretched(a, b, c, x, y, z);
    along_the_first_row(k);
    let t00 = |r: int, c: int| k(matrix::other(0, r), matrix::other(0, c));
    assert(t00(0, 0) == b && t00(0, 1) == 0 && t00(0, 2) == y && t00(1, 0) == 0 && t00(1, 1) == c && t00(1, 2) == z && t00(2, 0) == 0 && t00(2, 1) == 0 && t00(2, 2) == 1);
    determinant_of(b, 0, y, 0, c, z, 0, 0, 1, t00);
    assert(b * c * 1 - b * z * 0int - 0int * 0int * 1 + 0int * y * 0int + 0int * 0int * z - 0int * y * c == b * c) by (nonlinear_arith);
    assert(three_by_three(t00) == b * c);
    assert(adjugate(k, 0, 0) == b * c);
    let t01 = |r: int, c: int| k(matrix::other(1, r), matrix::other(0, c));
    assert(t01(0, 0) == 0 && t01(0, 1) == 0 && t01(0, 2) == x && t01(1, 0) == 0 && t01(1, 1) == c && t01(1, 2) == z && t01(2, 0) == 0 && t01(2, 1) == 0 && t01(2, 2) == 1);
    determinant_of(0, 0, x, 0, c, z, 0, 0, 1, t01);
    assert(0int * c * 1 - 0int * z * 0int - 0int * 0int * 1 + 0int * x * 0int + 0int * 0int * z - 0int * x * c == 0) by (nonlinear_arith);
    assert(three_by_three(t01) == 0);
    assert(adjugate(k, 0, 1) == 0);
    let t02 = |r: int, c: int| k(matrix::other(2, r), matrix::other(0, c));
    assert(t02(0, 0) == 0 && t02(0, 1) == 0 && t02(0, 2) == x && t02(1, 0) == b && t02(1, 1) == 0 && t02(1, 2) == y && t02(2, 0) == 0 && t02(2, 1) == 0 && t02(2, 2) == 1);
    determinant_of(0, 0, x, b, 0, y, 0, 0, 1, t02);
    assert(0int * 0int * 1 - 0int * y * 0int - b * 0int * 1 + b * x * 0int + 0int * 0int * y - 0int * x * 0int == 0) by (nonlinear_arith);
    assert(three_by_three(t02) == 0);
    assert(adjugate(k, 0, 2) == 0);
    let t03 = |r: int, c: int| k(matrix::other(3, r), matrix::other(0, c));
    assert(t03(0, 0) == 0 && t03(0, 1) == 0 && t03(0, 2) == x && t03(1, 0) == b && t03(1, 1) == 0 && t03(1, 2) == y && t03(2, 0) == 0 && t03(2, 1) == c && t03(2, 2) == z);
    determinant_of(0, 0, x, b, 0, y, 0, c, z, t03);
    assert(0int * 0int * z - 0int * y * c - b * 0int * z + b * x * c + 0int * 0int * y - 0int * x * 0int == ((b * c) * x)) by (nonlinear_arith);
    assert(three_by_three(t03) == ((b * c) * x));
    assert(adjugate(k, 0, 3) == -((b * c) * x));
    let t10 = |r: int, c: int| k(matrix::other(0, r), matrix::other(1, c));
    assert(t10(0, 0) == 0 && t10(0, 1) == 0 && t10(0, 2) == y && t10(1, 0) == 0 && t10(1, 1) == c && t10(1, 2) == z && t10(2, 0) == 0 && t10(2, 1) == 0 && t10(2, 2) == 1);
    determinant_of(0, 0, y, 0, c, z, 0, 0, 1, t10);
    assert(0int * c * 1 - 0int * z * 0int - 0int * 0int * 1 + 0int * y * 0int + 0int * 0int * z - 0int * y * c == 0) by (nonlinear_arith);
    assert(three_by_three(t10) == 0);
    assert(adjugate(k, 1, 0) == 0);
    let t11 = |r: int, c: int| k(matrix::other(1, r), matrix::other(1, c));
    assert(t11(0, 0) == a && t11(0, 1) == 0 && t11(0, 2) == x && t11(1, 0) == 0 && t11(1, 1) == c && t11(1, 2) == z && t11(2, 0) == 0 && t11(2, 1) == 0 && t11(2, 2) == 1);
    determinant_of(a, 0, x, 0, c, z, 0, 0, 1, t11);
    assert(a * c * 1 - a * z * 0int - 0int * 0int * 1 + 0int * x * 0int + 0int * 0int * z - 0int * x * c == a * c) by (nonlinear_arith);
    assert(three_by_three(t11) == a * c);
    assert(adjugate(k, 1, 1) == a * c);
    let t12 = |r: int, c: int| k(matrix::other(2, r), matrix::other(1, c));
    assert(t12(0, 0) == a && t12(0, 1) == 0 && t12(0, 2) == x && t12(1, 0) == 0 && t12(1, 1) == 0 && t12(1, 2) == y && t12(2, 0) == 0 && t12(2, 1) == 0 && t12(2, 2) == 1);
    determinant_of(a, 0, x, 0, 0, y, 0, 0, 1, t12);
    assert(a * 0int * 1 - a * y * 0int - 0int * 0int * 1 + 0int * x * 0int + 0int * 0int * y - 0int * x * 0int == 0) by (nonlinear_arith);
    assert(three_by_three(t12) == 0);
    assert(adjugate(k, 1, 2) == 0);
    let t13 = |r: int, c: int| k(matrix::other(3, r), matrix::other(1, c));
    assert(t13(0, 0) == a && t13(0, 1) == 0 && t13(0, 2) == x && t13(1, 0) == 0 && t13(1, 1) == 0 && t13(1, 2) == y && t13(2, 0) == 0 && t13(2, 1) == c && t13(2, 2) == z);
    determinant_of(a, 0, x, 0, 0, y, 0, c, z, t13);
    assert(a * 0int * z - a * y * c - 0int * 0int * z + 0int * x * c + 0int * 0int * y - 0int * x * 0int == -((a * c) * y)) by (nonlinear_arith);
    assert(three_by_three(t13) == -((a * c) * y));
    assert(adjugate(k, 1, 3) == -((a * c) * y));
    let t20 = |r: int, c: int| k(matrix::other(0, r), matrix::other(2, c));
    assert(t20(0, 0) == 0 && t20(0, 1) == b && t20(0, 2) == y && t20(1, 0) == 0 && t20(1, 1) == 0 && t20(1, 2) == z && t20(2, 0) == 0 && t20(2, 1) == 0 && t20(2, 2) == 1);
    determinant_of(0, b, y, 0, 0, z, 0, 0, 1, t20);
    assert(0int * 0int * 1 - 0int * z * 0int - 0int * b * 1 + 0int * y * 0int + 0int * b * z - 0int * y * 0int == 0) by (nonlinear_arith);
    assert(three_by_three(t20) == 0);
    assert(adjugate(k, 2, 0) == 0);
    let t21 = |r: int, c: int| k(matrix::other(1, r), matrix::other(2, c));
    assert(t21(0, 0) == a && t21(0, 1) == 0 && t21(0, 2) == x && t21(1, 0) == 0 && t21(1, 1) == 0 && t21(1, 2) == z && t21(2, 0) == 0 && t21(2, 1) == 0 && t21(2, 2) == 1);
    determinant_of(a, 0, x, 0, 0, z, 0, 0, 1, t21);
    assert(a * 0int * 1 - a * z * 0int - 0int * 0int * 1 + 0int * x * 0int + 0int * 0int * z - 0int * x * 0int == 0) by (nonlinear_arith);
    assert(three_by_three(t21) == 0);
    assert(adjugate(k, 2, 1) == 0);
    let t22 = |r: int, c: int| k(matrix::other(2, r), matrix::other(2, c));
    assert(t22(0, 0) == a && t22(0, 1) == 0 && t22(0, 2) == x && t22(1, 0) == 0 && t22(1, 1) == b && t22(1, 2) == y && t22(2, 0) == 0 && t22(2, 1) == 0 && t22(2, 2) == 1);
    determinant_of(a, 0, x, 0, b, y, 0, 0, 1, t22);
    assert(a * b * 1 - a * y * 0int - 0int * 0int * 1 + 0int * x * 0int + 0int * 0int * y - 0int * x * b == a * b) by (nonlinear_arith);
    assert(three_by_three(t22) == a * b);
    assert(adjugate(k, 2, 2) == a * b);
    let t23 = |r: int, c: int| k(matrix::other(3, r), matrix::other(2, c));
    assert(t23(0, 0) == a && t23(0, 1) == 0 && t23(0, 2) == x && t23(1, 0) == 0 && t23(1, 1) == b && t23(1, 2) == y && t23(2, 0) == 0 && t23(2, 1) == 0 && t23(2, 2) == z);
    determinant_of(a, 0, x, 0, b, y, 0, 0, z, t23);
    assert(a * b * z - a * y * 0int - 0int * 0int * z + 0int * x * 0int + 0int * 0int * y - 0int * x * b == ((a * b) * z)) by (nonlinear_arith);
    assert(three_by_three(t23) == ((a * b) * z));
    assert(adjugate(k, 2, 3) == -((a * b) * z));
    let t30 = |r: int, c: int| k(matrix::other(0, r), matrix::other(3, c));
    assert(t30(0, 0) == 0 && t30(0, 1) == b && t30(0, 2) == 0 && t30(1, 0) == 0 && t30(1, 1) == 0 && t30(1, 2) == c && t30(2, 0) == 0 && t30(2, 1) == 0 && t30(2, 2) == 0);
    determinant_of(0, b, 0, 0, 0, c, 0, 0, 0, t30);
    assert(0int * 0int * 0int - 0int * c * 0int - 0int * b * 0int + 0int * 0int * 0int + 0int * b * c - 0int * 0int * 0int == 0) by (nonlinear_arith);
    assert(three_by_three(t30) == 0);
    assert(adjugate(k, 3, 0) == 0);
    let t31 = |r: int, c: int| k(matrix::other(1, r), matrix::other(3, c));
    assert(t31(0, 0) == a && t31(0, 1) == 0 && t31(0, 2) == 0 && t31(1, 0) == 0 && t31(1, 1) == 0 && t31(1, 2) == c && t31(2, 0) == 0 && t31(2, 1) == 0 && t31(2, 2) == 0);
    determinant_of(a, 0, 0, 0, 0, c, 0, 0, 0, t31);
    assert(a * 0int * 0int - a * c * 0int - 0int * 0int * 0int + 0int * 0int * 0int + 0int * 0int * c - 0int * 0int * 0int == 0) by (nonlinear_arith);
    assert(three_by_three(t31) == 0);
    assert(adjugate(k, 3, 1) == 0);
    let t32 = |r: int, c: int| k(matrix::other(2, r), matrix::other(3, c));
    assert(t32(0, 0) == a && t32(0, 1) == 0 && t32(0, 2) == 0 && t32(1, 0) == 0 && t32(1, 1) == b && t32(1, 2) == 0 && t32(2, 0) == 0 && t32(2, 1) == 0 && t32(2, 2) == 0);
    determinant_of(a, 0, 0, 0, b, 0, 0, 0, 0, t32);
    assert(a * b * 0int - a * 0int * 0int - 0int * 0int * 0int + 0int * 0int * 0int + 0int * 0int * 0int - 0int * 0int * b == 0) by (nonlinear_arith);
    assert(three_by_three(t32) == 0);
    assert(adjugate(k, 3, 2) == 0);
    let t33 = |r: int, c: int| k(matrix::other(3, r), matrix::other(3, c));
    assert(t33(0, 0) == a && t33(0, 1) == 0 && t33(0, 2) == 0 && t33(1, 0) == 0 && t33(1, 1) == b && t33(1, 2) == 0 && t33(2, 0) == 0 && t33(2, 1) == 0 && t33(2, 2) == c);
    determinant_of(a, 0, 0, 0, b, 0, 0, 0, c, t33);
    assert(a * b * c - a * 0int * 0int - 0int * 0int * c + 0int * 0int * 0int + 0int * 0int * 0int - 0int * 0int * b == a * (b * c)) by (nonlinear_arith);
    assert(three_by_three(t33) == a * (b * c));
    assert(adjugate(k, 3, 3) == a * (b * c));
    noughts(x, 0);
    assert(0 * adjugate(k, 1, 0) == 0 && 0 * adjugate(k, 2, 0) == 0 && x * 0 == 0);
}

/// The determinant of nine numbers.
proof fn determinant_of(
    a: int,
    b: int,
    c: int,
    d: int,
    e: int,
    g: int,
    h: int,
    i: int,
    j: int,
    t: spec_fn(int, int) -> int,
)
    requires
        t(0, 0) == a && t(0, 1) == b && t(0, 2) == c,
        t(1, 0) == d && t(1, 1) == e && t(1, 2) == g,
        t(2, 0) == h && t(2, 1) == i && t(2, 2) == j,
    ensures
        three_by_three(t) == a * e * j - a * g * i - d * b * j + d * c * i + h * b * g - h * c * e,
{
}

/// The inverse of a stretch and a move undoes them: it divides by the factors of the stretch, and
/// moves back by the parts of the move.
pub proof fn stretches_and_moves_are_undone<F: Fn(Op, u64, u64) -> u64>(
    f: F,
    m: Matrix4,
    a: int,
    b: int,
    c: int,
    x: int,
    y: int,
    z: int,
    s: nat,
)
    requires
        rounding::is_rounding(f),
        is_table(m, stretched(a, b, c, x, y, z), 0x400),
        a * (b * c) == pow2(s) || a * (b * c) == -pow2(s),
        s <= 45,
    ensures
        matrix::inverse_of(f, m) matches Some(n) && ({
            let e = |i: int, j: int| near::exact(matrix::entry(n, i, j));
            let w = rounding::whole();
            &&& e(0, 0) * a == w && e(1, 1) * b == w && e(2, 2) * c == w && e(3, 3) == w
            &&& e(0, 3) * a == -x * w && e(1, 3) * b == -y * w && e(2, 3) * c == -z * w
            &&& e(0, 1) == 0 && e(0, 2) == 0 && e(1, 0) == 0 && e(1, 2) == 0 && e(2, 0) == 0
            &&& e(2, 1) == 0 && e(3, 0) == 0 && e(3, 1) == 0 && e(3, 2) == 0
        }),
{
    let k = stretched(a, b, c, x, y, z);
    stretched_adjugate(a, b, c, x, y, z);
    lemma_pow2_pos(s);
    inverses_are_there(f, m, k);
    let n = matrix::inverse_of(f, m)->0;
    let e = |i: int, j: int| near::exact(matrix::entry(n, i, j));
    let w = rounding::whole();
    let d = a * (b * c);
    assert forall|i: int, j: int| 0 <= i < 4 && 0 <= j < 4 implies #[trigger] e(i, j) * d == adjugate(
        k,
        i,
        j,
    ) * w by {
        inverse_counts(f, m, k, i, j, s);
    }
    in_turn(b, a, c);
    in_turn(c, a, b);
    assert(c * (a * b) == (a * b) * c && b * (a * c) == a * (b * c)) by (nonlinear_arith);
    in_turn(a, b, c);
    backwards(b * c, x);
    backwards(a * c, y);
    backwards(a * b, z);
    noughts(d, 0);
    noughts(b * c, 0);
    noughts(a * c, 0);
    noughts(a * b, 0);
    assert(1 * d == d && d * 0 == 0 && 0 * w == 0 && 1 * w == w);
    part_of(e(0, 0), d, b * c, a, w, 1);
    part_of(e(0, 3), d, b * c, a, w, -x);
    part_of(e(1, 1), d, a * c, b, w, 1);
    part_of(e(1, 3), d, a * c, b, w, -y);
    part_of(e(2, 2), d, a * b, c, w, 1);
    part_of(e(2, 3), d, a * b, c, w, -z);
    part_of(e(3, 3), d, d, 1, w, 1);
    part_of(e(0, 1), d, d, 1, w, 0);
    part_of(e(0, 2), d, d, 1, w, 0);
    part_of(e(1, 0), d, d, 1, w, 0);
    part_of(e(1, 2), d, d, 1, w, 0);
    part_of(e(2, 0), d, d, 1, w, 0);
    part_of(e(2, 1), d, d, 1, w, 0);
    part_of(e(3, 0), d, d, 1, w, 0);
    part_of(e(3, 1), d, d, 1, w, 0);
    part_of(e(3, 2), d, d, 1, w, 0);
}

/// What is a part of a whole, times the other part, where both are over the whole.
proof fn part_of(e: int, d: int, rest: int, a: int, w: int, t: int)
    requires
        d != 0,
        d == a * rest,
        e * d == (rest * t) * w,
    ensures
        e * a == t * w,
{
    assert((e * a) * rest == e * (a * rest)) by (nonlinear_arith);
    assert((rest * t) * w == (t * w) * rest) by (nonlinear_arith);
    let (u, v) = (e * a, t * w);
    assert(rest != 0) by (nonlinear_arith)
        requires
            a * rest != 0,
    ;
    assert(u == v) by (nonlinear_arith)
        requires
            u * rest == v * rest,
            rest != 0,
    ;
}

proof fn backwards(r: int, x: int)
    ensures
        -(r * x) == r * (-x),
{
    assert(-(r * x) == r * (-x)) by (nonlinear_arith);
}

// ---- how far ---------------------------------------------------------------

/// Three whole squares.
proof fn squares_count<F: Fn(Op, u64, u64) -> u64>(f: F, v: Vec3, x: int, y: int, z: int, k: int)
    requires
        rounding::is_rounding(f),
        is_arrow(v, x, y, z, 0x30_0000),
        k >= 0,
        x * x + y * y + z * z == k * k,
        k < 0x1_0000_0000,
    ensures
        is_count(arith::vector_length(f, v), k),
{
    dots_count(f, v, x, y, z, v, x, y, z);
    rounding::root_of_steps(f, arith::dot_product(f, v, v), k, 1074, 1074);
}

/// The distance of two points is the root of the squares of the differences of their coordinates.
pub proof fn distances_are_of_right_angles<F: Fn(Op, u64, u64) -> u64>(
    f: F,
    p: Point3,
    a: int,
    b: int,
    c: int,
    q: Point3,
    x: int,
    y: int,
    z: int,
    k: int,
)
    requires
        rounding::is_rounding(f),
        is_spot(p, a, b, c, 0x10_0000),
        is_spot(q, x, y, z, 0x10_0000),
        0 <= k < 0x1_0000_0000,
        (a - x) * (a - x) + (b - y) * (b - y) + (c - z) * (c - z) == k * k,
    ensures
        is_count(point::distance(f, p, q), k),
{
    minus_counts(f, p.x, a, q.x, x);
    minus_counts(f, p.y, b, q.y, y);
    minus_counts(f, p.z, c, q.z, z);
    squares_count(f, point::between(f, p, q), a - x, b - y, c - z, k);
}

/// How much a stretch along the axes changes lengths: the cube root of its factors together.
pub proof fn stretches_have_their_mean<F: Fn(Op, u64, u64) -> u64>(
    f: F,
    x: u64,
    a: int,
    y: u64,
    b: int,
    z: u64,
    c: int,
)
    requires
        rounding::is_rounding(f),
        is_count(x, a) && is_count(y, b) && is_count(z, c),
        0 <= a <= 0x1_0000 && 0 <= b <= 0x1_0000 && 0 <= c <= 0x1_0000,
    ensures
        exists|v: u64| #[trigger]
            is_count(v, a * b * c) && matrix::scale_of(f, Matrix4::scale_of(x, y, z))
                == double::greater(arith::value(f, Op::CubeRoot, v, 0), TINY),
{
    small_counts();
    let m = Matrix4::scale_of(x, y, z);
    let k = |i: int, j: int|
        if i != j {
            0int
        } else if i == 0 {
            a
        } else if i == 1 {
            b
        } else if i == 2 {
            c
        } else {
            1
        };
    assert(is_table(m, k, 0x1_0000));
    vectors_do_not_move(f, m, k, Vec3::of(ONE, ZERO, ZERO), 1, 0, 0);
    vectors_do_not_move(f, m, k, Vec3::of(ZERO, ONE, ZERO), 0, 1, 0);
    vectors_do_not_move(f, m, k, Vec3::of(ZERO, ZERO, ONE), 0, 0, 1);
    let vx = matrix::vector_of(f, m, Vec3::of(ONE, ZERO, ZERO));
    let vy = matrix::vector_of(f, m, Vec3::of(ZERO, ONE, ZERO));
    let vz = matrix::vector_of(f, m, Vec3::of(ZERO, ZERO, ONE));
    assert(a * 1 == a && b * 1 == b && c * 1 == c && a * 0 == 0 && b * 0 == 0 && c * 0 == 0);
    assert(0int * 0 == 0);
    squares_count(f, vx, a, 0, 0, a);
    squares_count(f, vy, 0, b, 0, b);
    squares_count(f, vz, 0, 0, c, c);
    let (p, q, r) = (
        arith::vector_length(f, vx),
        arith::vector_length(f, vy),
        arith::vector_length(f, vz),
    );
    times_counts(f, p, a, q, b, 0x1_0000, 0x1_0000);
    times_counts(f, arith::product(f, p, q), a * b, r, c, 0x1_0000_0000, 0x1_0000);
    let v = arith::product(f, arith::product(f, p, q), r);
    assert(is_count(v, a * b * c));
}

} // verus!
