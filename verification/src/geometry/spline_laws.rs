//! What the named bases are: the polynomials that weigh the four control points of a cubic, at
//! every parameter; and what patches do with them.

use crate::arith;
use crate::arith::Op;
use crate::double;
use crate::geometry::patches::Basis;
use crate::geometry::splines;
use crate::geometry::subdivision_laws;
use crate::math::{Vec3, HALF, MINUS_HALF, ONE, ZERO};
use crate::near;
use crate::rounding;
use vstd::arithmetic::power2::*;
use vstd::prelude::*;

verus! {

// ---- polynomials -----------------------------------------------------------

/// The weight that a matrix gives a control point at the parameter `a / b`, times the cube of
/// `b`: a polynomial whose coefficients stand in a column of the matrix.
pub open spec fn weight(m: Seq<u64>, col: int, a: int, b: int) -> int {
    near::exact(m[col]) * (a * a * a) + near::exact(m[4 + col]) * (a * a * b) + near::exact(
        m[8 + col],
    ) * (a * b * b) + near::exact(m[12 + col]) * (b * b * b)
}

/// Its slope, times the square of `b`.
pub open spec fn slope(m: Seq<u64>, col: int, a: int, b: int) -> int {
    3 * near::exact(m[col]) * (a * a) + 2 * near::exact(m[4 + col]) * (a * b) + near::exact(
        m[8 + col],
    ) * (b * b)
}

/// Whether all entries of a matrix are finite.
pub open spec fn is_matrix(m: Seq<u64>) -> bool {
    m.len() == 16 && forall|i: int| 0 <= i < 16 ==> double::is_finite(#[trigger] m[i])
}

/// Whether a number is off another by no more than one part in two to the 52nd of `of`.
pub open spec fn is_near_part(n: int, m: int, of: int) -> bool {
    0x10_0000_0000_0000 * near::gap(n, m) <= of
}

/// The entries of the named matrices, in halves.
proof fn entries_are_exact()
    ensures
        rounding::is_step(ZERO, 0, 1073),
        rounding::is_step(HALF, 1, 1073),
        rounding::is_step(MINUS_HALF, -1, 1073),
        rounding::is_step(ONE, 2, 1073),
        rounding::is_step(splines::MINUS_ONE, -2, 1073),
        rounding::is_step(splines::THREE_HALVES, 3, 1073),
        rounding::is_step(splines::MINUS_THREE_HALVES, -3, 1073),
        rounding::is_step(splines::TWO, 4, 1073),
        rounding::is_step(splines::MINUS_TWO, -4, 1073),
        rounding::is_step(splines::MINUS_FIVE_HALVES, -5, 1073),
        rounding::is_step(splines::THREE, 6, 1073),
        rounding::is_step(splines::MINUS_THREE, -6, 1073),
        rounding::is_step(splines::MINUS_SIX, -12, 1073),
{
    lemma2_to64();
    lemma2_to64_rest();
    lemma_pow2_adds(52, 1021);
    lemma_pow2_adds(51, 1022);
    lemma_pow2_adds(50, 1023);
    lemma_pow2_adds(49, 1024);
    let (a, b, c, d) = (pow2(1021), pow2(1022), pow2(1023), pow2(1024));
    assert(0 * pow2(0) == 0 && 0 * pow2(1073) == 0);
    assert(double::significand(HALF) == 0x10_0000_0000_0000);
    assert(double::significand(MINUS_HALF) == 0x10_0000_0000_0000);
    assert(double::significand(ONE) == 2 * 0x8_0000_0000_0000);
    assert(double::significand(splines::MINUS_ONE) == 2 * 0x8_0000_0000_0000);
    assert(double::significand(splines::THREE_HALVES) == 3 * 0x8_0000_0000_0000);
    assert(double::significand(splines::MINUS_THREE_HALVES) == 3 * 0x8_0000_0000_0000);
    assert(double::significand(splines::TWO) == 4 * 0x4_0000_0000_0000);
    assert(double::significand(splines::MINUS_TWO) == 4 * 0x4_0000_0000_0000);
    assert(double::significand(splines::MINUS_FIVE_HALVES) == 5 * 0x4_0000_0000_0000);
    assert(double::significand(splines::THREE) == 6 * 0x4_0000_0000_0000);
    assert(double::significand(splines::MINUS_THREE) == 6 * 0x4_0000_0000_0000);
    assert(double::significand(splines::MINUS_SIX) == 12 * 0x2_0000_0000_0000);
    assert((2 * 0x8_0000_0000_0000) * b == 2 * (0x8_0000_0000_0000 * b)) by (nonlinear_arith);
    assert((3 * 0x8_0000_0000_0000) * b == 3 * (0x8_0000_0000_0000 * b)) by (nonlinear_arith);
    assert((4 * 0x4_0000_0000_0000) * c == 4 * (0x4_0000_0000_0000 * c)) by (nonlinear_arith);
    assert((5 * 0x4_0000_0000_0000) * c == 5 * (0x4_0000_0000_0000 * c)) by (nonlinear_arith);
    assert((6 * 0x4_0000_0000_0000) * c == 6 * (0x4_0000_0000_0000 * c)) by (nonlinear_arith);
    assert((12 * 0x2_0000_0000_0000) * d == 12 * (0x2_0000_0000_0000 * d)) by (nonlinear_arith);
}

/// A sixth and two thirds, as near as doubles are to them: in units of which there are two to the
/// 55th in the number one.
proof fn thirds_are_near()
    ensures
        double::is_finite(splines::SIXTH) && double::is_finite(splines::MINUS_SIXTH),
        double::is_finite(splines::TWO_THIRDS),
        6 * near::exact(splines::SIXTH) == 0x7f_ffff_ffff_fffe * pow2(1019),
        6 * near::exact(splines::MINUS_SIXTH) == -(0x7f_ffff_ffff_fffe * pow2(1019)),
        6 * near::exact(splines::TWO_THIRDS) == 4 * (0x7f_ffff_ffff_fffe * pow2(1019)),
        rounding::whole() == 0x80_0000_0000_0000 * pow2(1019),
        2 * near::exact(HALF) == rounding::whole(),
        2 * near::exact(MINUS_HALF) == -rounding::whole(),
        near::exact(splines::MINUS_ONE) == -rounding::whole(),
        near::exact(ZERO) == 0,
{
    entries_are_exact();
    lemma2_to64();
    lemma2_to64_rest();
    lemma_pow2_adds(55, 1019);
    lemma_pow2_adds(2, 1019);
    lemma_pow2_adds(1, 1073);
    let h = pow2(1019);
    assert(double::significand(splines::SIXTH) == 0x15_5555_5555_5555);
    assert(double::significand(splines::MINUS_SIXTH) == 0x15_5555_5555_5555);
    assert(double::significand(splines::TWO_THIRDS) == 0x15_5555_5555_5555);
    assert(6 * (0x15_5555_5555_5555 * h) == 0x7f_ffff_ffff_fffe * h) by (nonlinear_arith);
    assert(6 * (0x15_5555_5555_5555 * (4 * h)) == 4 * (0x7f_ffff_ffff_fffe * h)) by (nonlinear_arith);
    assert(pow2(55) == 0x80_0000_0000_0000);
}

/// A product with a sum of four.
proof fn spread(w: int, i: int, j: int, k: int, l: int, x: int, y: int, z: int, t: int)
    ensures
        w * (i * x + j * y + k * z + l * t) == i * (w * x) + j * (w * y) + k * (w * z) + l * (w * t),
{
    let (a, b, c, d) = (i * x, j * y, k * z, l * t);
    assert(w * (a + b + c + d) == w * a + w * b + w * c + w * d) by (nonlinear_arith);
    assert(w * (i * x) == i * (w * x)) by (nonlinear_arith);
    assert(w * (j * y) == j * (w * y)) by (nonlinear_arith);
    assert(w * (k * z) == k * (w * z)) by (nonlinear_arith);
    assert(w * (l * t) == l * (w * t)) by (nonlinear_arith);
}

/// A weight whose coefficients are so many halves.
proof fn column(m: Seq<u64>, col: int, i: int, j: int, k: int, l: int, a: int, b: int)
    requires
        0 <= col < 4,
        rounding::is_step(m[col], i, 1073),
        rounding::is_step(m[4 + col], j, 1073),
        rounding::is_step(m[8 + col], k, 1073),
        rounding::is_step(m[12 + col], l, 1073),
    ensures
        2 * weight(m, col, a, b) == rounding::whole() * (i * (a * a * a) + j * (a * a * b) + k * (a * b
            * b) + l * (b * b * b)),
{
    let p = pow2(1073) as int;
    lemma_pow2_adds(1, 1073);
    lemma2_to64();
    let (x, y, z, t) = (a * a * a, a * a * b, a * b * b, b * b * b);
    spread(p, i, j, k, l, x, y, z, t);
    assert((i * p) * x == i * (p * x)) by (nonlinear_arith);
    assert((j * p) * y == j * (p * y)) by (nonlinear_arith);
    assert((k * p) * z == k * (p * z)) by (nonlinear_arith);
    assert((l * p) * t == l * (p * t)) by (nonlinear_arith);
    let n = i * x + j * y + k * z + l * t;
    assert(2 * (p * n) == (2 * p) * n) by (nonlinear_arith);
}

/// Twice a product.
proof fn twice(w: int, n: int)
    ensures
        w * (2 * n) == 2 * (w * n),
{
    assert(w * (2 * n) == 2 * (w * n)) by (nonlinear_arith);
}

// ---- B-splines -------------------------------------------------------------

/// The cube of a difference, and others of the same kind.
proof fn cubes_expand(a: int, b: int)
    ensures
        (b - a) * (b - a) * (b - a) == b * b * b - 3 * (a * b * b) + 3 * (a * a * b) - a * a * a,
        a * (b - a) * (b - a) == a * b * b - 2 * (a * a * b) + a * a * a,
        a * a * (b - a) == a * a * b - a * a * a,
{
    assert((b - a) * (b - a) * (b - a) == b * b * b - 3 * (a * b * b) + 3 * (a * a * b) - a * a * a)
        by (nonlinear_arith);
    assert(a * (b - a) * (b - a) == a * b * b - 2 * (a * a * b) + a * a * a) by (nonlinear_arith);
    assert(a * a * (b - a) == a * a * b - a * a * a) by (nonlinear_arith);
}

/// The weights of a uniform cubic B-spline at the parameter `u = a / b` are a sixth of
/// `(1 - u)^3`, of `3u^3 - 6u^2 + 4`, of `-3u^3 + 3u^2 + 3u + 1` and of `u^3`, as nearly as a
/// sixth is a double.
pub proof fn bspline_weights(m: Seq<u64>, a: int, b: int)
    requires
        splines::matrix_of(Basis::BSpline) == Some(m),
        0 <= a <= b,
    ensures
        is_matrix(m),
        ({
            let (w, all) = (rounding::whole(), rounding::whole() * (b * b * b));
            &&& is_near_part(6 * weight(m, 0, a, b), w * ((b - a) * (b - a) * (b - a)), all)
            &&& is_near_part(
                6 * weight(m, 1, a, b),
                w * (3 * (a * a * a) - 6 * (a * a * b) + 4 * (b * b * b)),
                all,
            )
            &&& is_near_part(
                6 * weight(m, 2, a, b),
                w * (-3 * (a * a * a) + 3 * (a * a * b) + 3 * (a * b * b) + b * b * b),
                all,
            )
            &&& is_near_part(6 * weight(m, 3, a, b), w * (a * a * a), all)
        }),
{
    thirds_are_near();
    cubes_expand(a, b);
    rounding::nought_and_one();
    entries_are_exact();
    let h = pow2(1019) as int;
    lemma_pow2_pos(1019);
    let (x, y, z, t) = (a * a * a, a * a * b, a * b * b, b * b * b);
    assert(0 <= x <= t) by (nonlinear_arith)
        requires
            0 <= a <= b,
            x == a * a * a,
            t == b * b * b,
    ;
    let (hx, hy, hz, ht) = (h * x, h * y, h * z, h * t);
    assert(0 <= hx <= ht) by (nonlinear_arith)
        requires
            0 <= x <= t,
            h > 0,
            hx == h * x,
            ht == h * t,
    ;
    let (w, s) = (rounding::whole(), near::exact(splines::SIXTH));
    // What each entry comes to, six times over.
    assert(6 * (s * x) == 0x7f_ffff_ffff_fffe * hx && 6 * (s * t) == 0x7f_ffff_ffff_fffe * ht)
        by (nonlinear_arith)
        requires
            6 * s == 0x7f_ffff_ffff_fffe * h,
            hx == h * x,
            ht == h * t,
    ;
    assert(6 * (near::exact(splines::MINUS_SIXTH) * x) == -(0x7f_ffff_ffff_fffe * hx))
        by (nonlinear_arith)
        requires
            6 * near::exact(splines::MINUS_SIXTH) == -(0x7f_ffff_ffff_fffe * h),
            hx == h * x,
    ;
    assert(6 * (near::exact(splines::TWO_THIRDS) * t) == 4 * (0x7f_ffff_ffff_fffe * ht))
        by (nonlinear_arith)
        requires
            6 * near::exact(splines::TWO_THIRDS) == 4 * (0x7f_ffff_ffff_fffe * h),
            ht == h * t,
    ;
    let (p, q) = (near::exact(HALF), near::exact(MINUS_HALF));
    halves(p, q, w, h, x, hx);
    halves(p, q, w, h, y, hy);
    halves(p, q, w, h, z, hz);
    halves(p, q, w, h, t, ht);
    assert(near::exact(splines::MINUS_ONE) * y == -(0x80_0000_0000_0000 * hy)) by (nonlinear_arith)
        requires
            near::exact(splines::MINUS_ONE) == -w,
            w == 0x80_0000_0000_0000 * h,
            hy == h * y,
    ;
    let n = near::exact(ZERO);
    assert(n * y == 0 && n * z == 0 && n * t == 0) by (nonlinear_arith)
        requires
            n == 0,
    ;
    let f = 0x80_0000_0000_0000int;
    times_unit(f, h, w, x, hx);
    times_unit(f, h, w, y, hy);
    times_unit(f, h, w, z, hz);
    times_unit(f, h, w, t, ht);
    spread(w, -1, 3, -3, 1, x, y, z, t);
    spread(w, 3, -6, 0, 4, x, y, z, t);
    spread(w, -3, 3, 3, 1, x, y, z, t);
    bspline_entries(m);
    assert((b - a) * (b - a) * (b - a) == -1 * x + 3 * y + (-3) * z + 1 * t);
    assert(6 * weight(m, 0, a, b) == 6 * (near::exact(m[0]) * x) + 6 * (near::exact(m[4]) * y) + 6 * (
    near::exact(m[8]) * z) + 6 * (near::exact(m[12]) * t));
    assert(6 * weight(m, 1, a, b) == 6 * (near::exact(m[1]) * x) + 6 * (near::exact(m[5]) * y) + 6 * (
    near::exact(m[9]) * z) + 6 * (near::exact(m[13]) * t));
    assert(6 * weight(m, 2, a, b) == 6 * (near::exact(m[2]) * x) + 6 * (near::exact(m[6]) * y) + 6 * (
    near::exact(m[10]) * z) + 6 * (near::exact(m[14]) * t));
    assert(6 * weight(m, 3, a, b) == 6 * (near::exact(m[3]) * x) + 6 * (near::exact(m[7]) * y) + 6 * (
    near::exact(m[11]) * z) + 6 * (near::exact(m[15]) * t));
}

proof fn times_unit(f: int, h: int, w: int, x: int, hx: int)
    requires
        w == f * h,
        hx == h * x,
    ensures
        w * x == f * hx,
{
    assert((f * h) * x == f * (h * x)) by (nonlinear_arith);
}

proof fn bspline_entries(m: Seq<u64>)
    requires
        splines::matrix_of(Basis::BSpline) == Some(m),
    ensures
        m.len() == 16,
        m[0] == splines::MINUS_SIXTH && m[1] == HALF && m[2] == MINUS_HALF && m[3] == splines::SIXTH,
        m[4] == HALF && m[5] == splines::MINUS_ONE && m[6] == HALF && m[7] == ZERO,
        m[8] == MINUS_HALF && m[9] == ZERO && m[10] == HALF && m[11] == ZERO,
        m[12] == splines::SIXTH && m[13] == splines::TWO_THIRDS && m[14] == splines::SIXTH && m[15]
            == ZERO,
{
}

proof fn halves(p: int, q: int, w: int, h: int, x: int, hx: int)
    requires
        2 * p == w,
        2 * q == -w,
        w == 0x80_0000_0000_0000 * h,
        hx == h * x,
    ensures
        6 * (p * x) == 3 * (0x80_0000_0000_0000 * hx),
        6 * (q * x) == -(3 * (0x80_0000_0000_0000 * hx)),
{
    assert(6 * (p * x) == 3 * ((2 * p) * x)) by (nonlinear_arith);
    assert(6 * (q * x) == 3 * ((2 * q) * x)) by (nonlinear_arith);
    assert((0x80_0000_0000_0000 * h) * x == 0x80_0000_0000_0000 * (h * x)) by (nonlinear_arith);
    assert((-(0x80_0000_0000_0000 * h)) * x == -(0x80_0000_0000_0000 * (h * x))) by (nonlinear_arith);
}

/// One span of a B-spline ends where the next, one control point further, begins, and as steeply:
/// its weights at the end are those of the next at the start, moved along by one, as nearly as a
/// sixth is a double.
pub proof fn bspline_spans_meet(m: Seq<u64>, col: int)
    requires
        splines::matrix_of(Basis::BSpline) == Some(m),
        0 <= col < 3,
    ensures
        weight(m, 0, 1, 1) == 0 && weight(m, 3, 0, 1) == 0,
        is_near_part(weight(m, col + 1, 1, 1), weight(m, col, 0, 1), rounding::whole()),
        is_near_part(slope(m, col + 1, 1, 1), slope(m, col, 0, 1), rounding::whole()),
        is_near_part(slope(m, 0, 1, 1), 0, rounding::whole()) && slope(m, 3, 0, 1) == 0,
{
    thirds_are_near();
    bspline_entries(m);
    rounding::nought_and_one();
    let h = pow2(1019) as int;
    lemma_pow2_pos(1019);
    assert(near::exact(splines::MINUS_SIXTH) == -near::exact(splines::SIXTH));
    ends_of(m, 0);
    ends_of(m, 1);
    ends_of(m, 2);
    ends_of(m, 3);
}

/// Weights and slopes at both ends of a span.
proof fn ends_of(m: Seq<u64>, col: int)
    ensures
        weight(m, col, 0, 1) == near::exact(m[12 + col]),
        weight(m, col, 1, 1) == near::exact(m[col]) + near::exact(m[4 + col]) + near::exact(m[8 + col])
            + near::exact(m[12 + col]),
        slope(m, col, 0, 1) == near::exact(m[8 + col]),
        slope(m, col, 1, 1) == 3 * near::exact(m[col]) + 2 * near::exact(m[4 + col]) + near::exact(
            m[8 + col],
        ),
{
    let (p, q) = (near::exact(m[col]), near::exact(m[4 + col]));
    let (r, s) = (near::exact(m[8 + col]), near::exact(m[12 + col]));
    assert(p * (0int * 0 * 0) == 0) by (nonlinear_arith);
    assert(q * (0int * 0 * 1) == 0) by (nonlinear_arith);
    assert(r * (0int * 1 * 1) == 0) by (nonlinear_arith);
    assert(s * (1int * 1 * 1) == s) by (nonlinear_arith);
    assert(p * (1int * 1 * 1) == p) by (nonlinear_arith);
    assert(q * (1int * 1 * 1) == q) by (nonlinear_arith);
    assert(r * (1int * 1 * 1) == r) by (nonlinear_arith);
    assert(3 * p * (0int * 0) == 0) by (nonlinear_arith);
    assert(2 * q * (0int * 1) == 0) by (nonlinear_arith);
    assert(r * (1int * 1) == r) by (nonlinear_arith);
    assert(3 * p * (1int * 1) == 3 * p) by (nonlinear_arith);
    assert(2 * q * (1int * 1) == 2 * q) by (nonlinear_arith);
}

// ---- the other bases -------------------------------------------------------

/// The weights of a Bezier curve at `u = a / b` are the polynomials of Bernstein: `(1 - u)^3`,
/// `3u(1 - u)^2`, `3u^2(1 - u)` and `u^3`.
pub proof fn bezier_weights(m: Seq<u64>, a: int, b: int)
    requires
        splines::matrix_of(Basis::Bezier) == Some(m),
    ensures
        is_matrix(m),
        ({
            let w = rounding::whole();
            &&& weight(m, 0, a, b) == w * ((b - a) * (b - a) * (b - a))
            &&& weight(m, 1, a, b) == w * (3 * (a * (b - a) * (b - a)))
            &&& weight(m, 2, a, b) == w * (3 * (a * a * (b - a)))
            &&& weight(m, 3, a, b) == w * (a * a * a)
        }),
{
    entries_are_exact();
    cubes_expand(a, b);
    let (x, y, z, t) = (a * a * a, a * a * b, a * b * b, b * b * b);
    let w = rounding::whole();
    column(m, 0, -2, 6, -6, 2, a, b);
    twice(w, t - 3 * z + 3 * y - x);
    column(m, 1, 6, -12, 6, 0, a, b);
    twice(w, 3 * z - 6 * y + 3 * x);
    column(m, 2, -6, 6, 0, 0, a, b);
    twice(w, 3 * y - 3 * x);
    column(m, 3, 2, 0, 0, 0, a, b);
    twice(w, x);
}

/// The weights of a Catmull-Rom curve at `u = a / b`: a half of `-u^3 + 2u^2 - u`, of
/// `3u^3 - 5u^2 + 2`, of `-3u^3 + 4u^2 + u` and of `u^3 - u^2`.
pub proof fn catmull_rom_weights(m: Seq<u64>, a: int, b: int)
    requires
        splines::matrix_of(Basis::CatmullRom) == Some(m),
    ensures
        is_matrix(m),
        ({
            let w = rounding::whole();
            let (x, y, z, t) = (a * a * a, a * a * b, a * b * b, b * b * b);
            &&& 2 * weight(m, 0, a, b) == w * (-x + 2 * y - z)
            &&& 2 * weight(m, 1, a, b) == w * (3 * x - 5 * y + 2 * t)
            &&& 2 * weight(m, 2, a, b) == w * (-3 * x + 4 * y + z)
            &&& 2 * weight(m, 3, a, b) == w * (x - y)
        }),
{
    entries_are_exact();
    cubes_expand(a, b);
    let (x, y, z, t) = (a * a * a, a * a * b, a * b * b, b * b * b);
    let w = rounding::whole();
    column(m, 0, -1, 2, -1, 0, a, b);
    column(m, 1, 3, -5, 0, 2, a, b);
    column(m, 2, -3, 4, 1, 0, a, b);
    column(m, 3, 1, -1, 0, 0, a, b);
}

/// The weights of a Hermite curve at `u = a / b`, for a point and its tangent at either end:
/// `2u^3 - 3u^2 + 1`, `u^3 - 2u^2 + u`, `-2u^3 + 3u^2` and `u^3 - u^2`.
pub proof fn hermite_weights(m: Seq<u64>, a: int, b: int)
    requires
        splines::matrix_of(Basis::Hermite) == Some(m),
    ensures
        is_matrix(m),
        ({
            let w = rounding::whole();
            let (x, y, z, t) = (a * a * a, a * a * b, a * b * b, b * b * b);
            &&& weight(m, 0, a, b) == w * (2 * x - 3 * y + t)
            &&& weight(m, 1, a, b) == w * (x - 2 * y + z)
            &&& weight(m, 2, a, b) == w * (-2 * x + 3 * y)
            &&& weight(m, 3, a, b) == w * (x - y)
        }),
{
    entries_are_exact();
    cubes_expand(a, b);
    let (x, y, z, t) = (a * a * a, a * a * b, a * b * b, b * b * b);
    let w = rounding::whole();
    column(m, 0, 4, -6, 0, 2, a, b);
    twice(w, 2 * x - 3 * y + t);
    column(m, 1, 2, -4, 2, 0, a, b);
    twice(w, x - 2 * y + z);
    column(m, 2, -4, 6, 0, 0, a, b);
    twice(w, -2 * x + 3 * y);
    column(m, 3, 2, -2, 0, 0, a, b);
    twice(w, x - y);
}

/// The weights of the power basis are the powers of the parameter.
pub proof fn power_weights(m: Seq<u64>, a: int, b: int)
    requires
        splines::matrix_of(Basis::Power) == Some(m),
    ensures
        is_matrix(m),
        ({
            let w = rounding::whole();
            &&& weight(m, 0, a, b) == w * (a * a * a)
            &&& weight(m, 1, a, b) == w * (a * a * b)
            &&& weight(m, 2, a, b) == w * (a * b * b)
            &&& weight(m, 3, a, b) == w * (b * b * b)
        }),
{
    entries_are_exact();
    cubes_expand(a, b);
    let (x, y, z, t) = (a * a * a, a * a * b, a * b * b, b * b * b);
    let w = rounding::whole();
    column(m, 0, 2, 0, 0, 0, a, b);
    twice(w, x);
    column(m, 1, 0, 2, 0, 0, a, b);
    twice(w, y);
    column(m, 2, 0, 0, 2, 0, a, b);
    twice(w, z);
    column(m, 3, 0, 0, 0, 2, a, b);
    twice(w, t);
}

// ---- weights as they are computed ------------------------------------------

/// A number in finer steps.
proof fn finer(a: u64, k: int, u: nat, g: nat)
    requires
        rounding::is_step(a, k, u),
        g <= u,
    ensures
        rounding::is_step(a, k * pow2(g), (u - g) as nat),
{
    lemma_pow2_adds(g, (u - g) as nat);
    let (x, y) = (pow2(g) as int, pow2((u - g) as nat) as int);
    assert(k * (x * y) == (k * x) * y) by (nonlinear_arith);
}

/// Whether a matrix has short entries: whole numbers of halves.
pub open spec fn is_short_matrix(m: Seq<u64>) -> bool {
    m.len() == 16 && forall|i: int|
        0 <= i < 16 ==> subdivision_laws::is_coarse(#[trigger] m[i], 1073, 1024)
}

/// The weights that are computed at `k / 2^g` are the polynomials of the matrix at that parameter,
/// in exact numbers.
pub proof fn computed_weights<F: Fn(Op, u64, u64) -> u64>(
    f: F,
    m: Seq<u64>,
    t: u64,
    k: int,
    g: nat,
    col: int,
)
    requires
        rounding::is_rounding(f),
        is_short_matrix(m),
        g <= 12,
        0 <= k <= pow2(g),
        rounding::is_step(t, k, (1074 - g) as nat),
        0 <= col < 4,
    ensures
        ({
            let w = splines::weights_at(f, m, t)[col];
            let b = pow2(g) as int;
            &&& double::is_finite(w)
            &&& near::exact(w) * (b * b * b) == weight(m, col, k, b)
            &&& subdivision_laws::is_coarse(w, (1073 - 3 * g) as nat, 0x1_0000_0000_0000)
        }),
{
    let b = pow2(g) as int;
    lemma2_to64();
    lemma_pow2_pos(g);
    if g < 12 {
        lemma_pow2_strictly_increases(g, 12);
    }
    assert(1 <= b <= 4096);
    assert(subdivision_laws::is_coarse(m[col], 1073, 1024));
    assert(subdivision_laws::is_coarse(m[4 + col], 1073, 1024));
    assert(subdivision_laws::is_coarse(m[8 + col], 1073, 1024));
    assert(subdivision_laws::is_coarse(m[12 + col], 1073, 1024));
    let h = choose|h: int| -1024 <= h <= 1024 && #[trigger] rounding::is_step(m[col], h, 1073);
    let i = choose|h: int| -1024 <= h <= 1024 && #[trigger] rounding::is_step(m[4 + col], h, 1073);
    let j = choose|h: int| -1024 <= h <= 1024 && #[trigger] rounding::is_step(m[8 + col], h, 1073);
    let l = choose|h: int| -1024 <= h <= 1024 && #[trigger] rounding::is_step(m[12 + col], h, 1073);
    let u = (1073 - 3 * g) as nat;
    let (k2, k3) = (k * k, k * k * k);
    powers_are_small(k, b);
    powers_are_small(b, b);
    // The powers of the parameter.
    let t2 = arith::product(f, t, t);
    rounding::product_of_steps(f, t, k, (1074 - g) as nat, t, k, (1074 - g) as nat);
    let t3 = arith::product(f, t2, t);
    rounding::product_of_steps(f, t2, k2, (1074 - 2 * g) as nat, t, k, (1074 - g) as nat);
    entries_are_exact();
    subdivision_laws::constants_are_exact();
    // The rows.
    let (b2, b3) = (b * b, b * b * b);
    small_product(k3, h);
    small_product(k2, i);
    small_product(k, j);
    small_product(1, l);
    let r0 = arith::product(f, t3, m[col]);
    rounding::product_of_steps(f, t3, k3, (1074 - 3 * g) as nat, m[col], h, 1073);
    let r1 = arith::product(f, t2, m[4 + col]);
    rounding::product_of_steps(f, t2, k2, (1074 - 2 * g) as nat, m[4 + col], i, 1073);
    finer(r1, k2 * i, (1073 - 2 * g) as nat, g);
    let r2 = arith::product(f, t, m[8 + col]);
    rounding::product_of_steps(f, t, k, (1074 - g) as nat, m[8 + col], j, 1073);
    finer(r2, k * j, (1073 - g) as nat, 2 * g);
    lemma_pow2_adds(g, g);
    let r3 = arith::product(f, ONE, m[12 + col]);
    rounding::product_of_steps(f, ONE, 1, 1074, m[12 + col], l, 1073);
    finer(r3, 1 * l, 1073, 3 * g);
    lemma_pow2_adds(2 * g, g);
    let (n0, n1, n2, n3) = (k3 * h, k2 * i * b, k * j * b2, 1 * l * b3);
    rows_are_small(k, b, h, i, j, l);
    rounding::nought_and_one();
    assert(0 * pow2(u) == 0);
    assert(rounding::is_step(ZERO, 0, u));
    rounding::sum_of_steps(f, ZERO, 0, r0, n0, u);
    let s0 = arith::sum(f, ZERO, r0);
    rounding::sum_of_steps(f, s0, 0 + n0, r1, n1, u);
    let s1 = arith::sum(f, s0, r1);
    rounding::sum_of_steps(f, s1, 0 + n0 + n1, r2, n2, u);
    let s2 = arith::sum(f, s1, r2);
    rounding::sum_of_steps(f, s2, 0 + n0 + n1 + n2, r3, n3, u);
    let w = arith::sum(f, s2, r3);
    assert(splines::weight_over(f, m, t, col, 0) == ZERO);
    assert(splines::weight_over(f, m, t, col, 1) == s0);
    assert(splines::weight_over(f, m, t, col, 2) == s1);
    assert(splines::weight_over(f, m, t, col, 3) == s2);
    assert(splines::weight_over(f, m, t, col, 4) == w);
    // In the size of the matrix.
    column(m, col, h, i, j, l, k, b);
    lemma_pow2_adds(3 * g, u);
    lemma_pow2_adds(1, 1073);
    let n = n0 + n1 + n2 + n3;
    let p = pow2(u) as int;
    assert(pow2(1073) == b3 * p);
    assert((n * p) * b3 == n * (b3 * p)) by (nonlinear_arith);
    assert(n == h * (k * k * k) + i * (k * k * b) + j * (k * b * b) + l * (b * b * b)) by {
        assert(k3 * h == h * (k * k * k)) by (nonlinear_arith)
            requires
                k3 == k * k * k,
        ;
        assert(k2 * i * b == i * (k * k * b)) by (nonlinear_arith)
            requires
                k2 == k * k,
        ;
        assert(k * j * b2 == j * (k * b * b)) by (nonlinear_arith)
            requires
                b2 == b * b,
        ;
    }
    assert(2 * (n * pow2(1073)) == (2 * pow2(1073)) * n) by (nonlinear_arith);
    assert(rounding::whole() * n == 2 * (n * pow2(1073)));
}

proof fn powers_are_small(k: int, b: int)
    requires
        0 <= k <= b <= 4096,
    ensures
        0 <= k * k <= 0x100_0000,
        0 <= k * k * k <= 0x10_0000_0000,
{
    assert(0 <= k * k <= 4096 * 4096) by (nonlinear_arith)
        requires
            0 <= k <= 4096,
    ;
    let s = k * k;
    assert(0 <= s * k <= 0x100_0000 * 4096) by (nonlinear_arith)
        requires
            0 <= k <= 4096,
            0 <= s <= 0x100_0000,
    ;
}

proof fn small_product(s: int, h: int)
    requires
        0 <= s <= 0x10_0000_0000,
        -1024 <= h <= 1024,
    ensures
        -0x4000_0000_0000 <= s * h <= 0x4000_0000_0000,
{
    assert(-0x4000_0000_0000 <= s * h <= 0x4000_0000_0000) by (nonlinear_arith)
        requires
            0 <= s <= 0x10_0000_0000,
            -1024 <= h <= 1024,
    ;
}

proof fn rows_are_small(k: int, b: int, h: int, i: int, j: int, l: int)
    requires
        0 <= k <= b <= 4096,
        -1024 <= h <= 1024,
        -1024 <= i <= 1024,
        -1024 <= j <= 1024,
        -1024 <= l <= 1024,
    ensures
        -0x4000_0000_0000 <= k * k * k * h <= 0x4000_0000_0000,
        -0x4000_0000_0000 <= k * k * i * b <= 0x4000_0000_0000,
        -0x4000_0000_0000 <= k * j * (b * b) <= 0x4000_0000_0000,
        -0x4000_0000_0000 <= 1 * l * (b * b * b) <= 0x4000_0000_0000,
{
    powers_are_small(k, b);
    powers_are_small(b, b);
    small_product(k * k * k, h);
    small_product(b * b * b, l);
    let (k2, b2) = (k * k, b * b);
    assert(0 <= k2 * b <= 0x10_0000_0000) by (nonlinear_arith)
        requires
            0 <= k2 <= 0x100_0000,
            0 <= b <= 4096,
    ;
    assert(0 <= k * b2 <= 0x10_0000_0000) by (nonlinear_arith)
        requires
            0 <= b2 <= 0x100_0000,
            0 <= k <= 4096,
    ;
    small_product(k2 * b, i);
    small_product(k * b2, j);
    assert(k2 * i * b == (k2 * b) * i) by (nonlinear_arith);
    assert(k * j * b2 == (k * b2) * j) by (nonlinear_arith);
    assert(1 * l * (b * b * b) == (b * b * b) * l) by (nonlinear_arith);
}

/// At the start of a span the weights are the last row of the matrix, whatever that is.
pub proof fn weights_at_the_start<F: Fn(Op, u64, u64) -> u64>(f: F, m: Seq<u64>, t: u64, col: int)
    requires
        rounding::is_rounding(f),
        is_matrix(m),
        rounding::is_nought(t),
        0 <= col < 4,
    ensures
        ({
            let w = splines::weights_at(f, m, t)[col];
            double::is_finite(w) && near::exact(w) == near::exact(m[12 + col])
        }),
{
    rounding::nought_and_one();
    let t2 = arith::product(f, t, t);
    rounding::product_with_nought(f, t, t);
    let t3 = arith::product(f, t2, t);
    rounding::product_with_nought(f, t2, t);
    assert(double::is_finite(m[col]) && double::is_finite(m[4 + col]));
    assert(double::is_finite(m[8 + col]) && double::is_finite(m[12 + col]));
    rounding::product_with_nought(f, m[col], t3);
    rounding::product_with_nought(f, m[4 + col], t2);
    rounding::product_with_nought(f, m[8 + col], t);
    rounding::product_with_one(f, m[12 + col], ONE);
    let (r0, r1) = (arith::product(f, t3, m[col]), arith::product(f, t2, m[4 + col]));
    let (r2, r3) = (arith::product(f, t, m[8 + col]), arith::product(f, ONE, m[12 + col]));
    rounding::sum_with_nought(f, ZERO, r0);
    let s0 = arith::sum(f, ZERO, r0);
    rounding::sum_with_nought(f, s0, r1);
    let s1 = arith::sum(f, s0, r1);
    rounding::sum_with_nought(f, s1, r2);
    let s2 = arith::sum(f, s1, r2);
    rounding::sum_with_nought(f, r3, s2);
    assert(splines::weight_over(f, m, t, col, 0) == ZERO);
    assert(splines::weight_over(f, m, t, col, 1) == s0);
    assert(splines::weight_over(f, m, t, col, 2) == s1);
    assert(splines::weight_over(f, m, t, col, 3) == s2);
}

// ---- patches ---------------------------------------------------------------

/// Whether one of four weights is one and the others are nothing.
pub open spec fn picks(w: Seq<u64>, i: int) -> bool {
    &&& w.len() == 4 && 0 <= i < 4
    &&& double::is_finite(w[i]) && near::exact(w[i]) == rounding::whole()
    &&& forall|k: int| 0 <= k < 4 && k != i ==> rounding::is_nought(#[trigger] w[k])
}

/// Whether two points are in the same place.
pub open spec fn same_place(p: Vec3, q: Vec3) -> bool {
    &&& double::is_finite(p.x) && double::is_finite(p.y) && double::is_finite(p.z)
    &&& near::exact(p.x) == near::exact(q.x) && near::exact(p.y) == near::exact(q.y) && near::exact(
        p.z,
    ) == near::exact(q.z)
}

/// Whether the coordinates of a point are finite.
pub open spec fn is_point(p: Vec3) -> bool {
    double::is_finite(p.x) && double::is_finite(p.y) && double::is_finite(p.z)
}

proof fn pick_one<F: Fn(Op, u64, u64) -> u64>(
    f: F,
    bu: Seq<u64>,
    bv: Seq<u64>,
    ctrl: Seq<Vec3>,
    i: int,
    j: int,
    k: int,
)
    requires
        rounding::is_rounding(f),
        picks(bu, i),
        picks(bv, j),
        ctrl.len() == 16,
        forall|n: int| 0 <= n < 16 ==> is_point(#[trigger] ctrl[n]),
        0 <= k <= 16,
    ensures
        k <= 4 * j + i ==> same_place(
            splines::weighed(f, bu, bv, ctrl, k),
            Vec3::of(ZERO, ZERO, ZERO),
        ),
        k > 4 * j + i ==> same_place(splines::weighed(f, bu, bv, ctrl, k), ctrl[4 * j + i]),
    decreases k,
{
    rounding::nought_and_one();
    if k > 0 {
        pick_one(f, bu, bv, ctrl, i, j, k - 1);
        let before = splines::weighed(f, bu, bv, ctrl, k - 1);
        let (a, b) = (bu[(k - 1) % 4], bv[(k - 1) / 4]);
        let w = arith::product(f, a, b);
        let c = ctrl[k - 1];
        assert(is_point(c));
        if k - 1 == 4 * j + i {
            assert((k - 1) % 4 == i && (k - 1) / 4 == j);
            rounding::product_with_one(f, a, b);
            one_more(f, before, c, w, true);
        } else {
            if (k - 1) % 4 == i {
                assert((k - 1) / 4 != j);
                assert(rounding::is_nought(b));
                rounding::product_with_nought(f, a, b);
            } else {
                assert(rounding::is_nought(a));
                rounding::product_with_nought(f, b, a);
            }
            one_more(f, before, c, w, false);
        }
    }
}

/// A point more, with all its weight or none.
proof fn one_more<F: Fn(Op, u64, u64) -> u64>(f: F, before: Vec3, c: Vec3, w: u64, all: bool)
    requires
        rounding::is_rounding(f),
        is_point(before),
        is_point(c),
        all ==> double::is_finite(w) && near::exact(w) == rounding::whole(),
        all ==> same_place(before, Vec3::of(ZERO, ZERO, ZERO)),
        !all ==> rounding::is_nought(w),
    ensures
        ({
            let r = arith::vector_sum(f, before, arith::vector_multiple(f, c, w));
            same_place(r, if all {
                c
            } else {
                before
            })
        }),
{
    rounding::nought_and_one();
    number_more(f, before.x, c.x, w, all);
    number_more(f, before.y, c.y, w, all);
    number_more(f, before.z, c.z, w, all);
}

proof fn number_more<F: Fn(Op, u64, u64) -> u64>(f: F, before: u64, c: u64, w: u64, all: bool)
    requires
        rounding::is_rounding(f),
        double::is_finite(before),
        double::is_finite(c),
        all ==> double::is_finite(w) && near::exact(w) == rounding::whole(),
        all ==> near::exact(before) == 0,
        !all ==> rounding::is_nought(w),
    ensures
        ({
            let r = arith::sum(f, before, arith::product(f, c, w));
            double::is_finite(r) && near::exact(r) == near::exact(
                if all {
                    c
                } else {
                    before
                },
            )
        }),
{
    let p = arith::product(f, c, w);
    if all {
        rounding::product_with_one(f, c, w);
        rounding::sum_with_nought(f, p, before);
    } else {
        rounding::product_with_nought(f, c, w);
        rounding::sum_with_nought(f, before, p);
    }
}

/// Where all weight in one direction is on control point `i` and all in the other on `j`, the
/// point of the patch is the control point in column `i` of row `j`.
pub proof fn patches_weigh_their_points<F: Fn(Op, u64, u64) -> u64>(
    f: F,
    mu: Seq<u64>,
    mv: Seq<u64>,
    ctrl: Seq<Vec3>,
    u: u64,
    v: u64,
    i: int,
    j: int,
)
    requires
        rounding::is_rounding(f),
        picks(splines::weights_at(f, mu, u), i),
        picks(splines::weights_at(f, mv, v), j),
        ctrl.len() == 16,
        forall|n: int| 0 <= n < 16 ==> is_point(#[trigger] ctrl[n]),
    ensures
        same_place(splines::bicubic_point(f, mu, mv, ctrl, u, v), ctrl[4 * j + i]),
{
    pick_one(f, splines::weights_at(f, mu, u), splines::weights_at(f, mv, v), ctrl, i, j, 16);
}

proof fn bezier_is_short(m: Seq<u64>)
    requires
        splines::matrix_of(Basis::Bezier) == Some(m),
    ensures
        is_short_matrix(m),
        is_matrix(m),
{
    entries_are_exact();
    assert forall|i: int| 0 <= i < 16 implies subdivision_laws::is_coarse(#[trigger] m[i], 1073, 1024) by {
        assert(rounding::is_step(ZERO, 0, 1073) && rounding::is_step(ONE, 2, 1073));
        assert(rounding::is_step(splines::MINUS_ONE, -2, 1073));
        assert(rounding::is_step(splines::THREE, 6, 1073));
        assert(rounding::is_step(splines::MINUS_THREE, -6, 1073));
        assert(rounding::is_step(splines::MINUS_SIX, -12, 1073));
    }
}

/// The weights of a Bezier curve at its ends.
proof fn bezier_ends<F: Fn(Op, u64, u64) -> u64>(f: F, m: Seq<u64>, t: u64, end: bool)
    requires
        rounding::is_rounding(f),
        splines::matrix_of(Basis::Bezier) == Some(m),
        t == if end {
            ONE
        } else {
            ZERO
        },
    ensures
        picks(splines::weights_at(f, m, t), if end {
            3
        } else {
            0
        }),
{
    bezier_is_short(m);
    subdivision_laws::constants_are_exact();
    rounding::nought_and_one();
    lemma2_to64();
    let k: int = if end {
        1
    } else {
        0
    };
    computed_weights(f, m, t, k, 0, 0);
    computed_weights(f, m, t, k, 0, 1);
    computed_weights(f, m, t, k, 0, 2);
    computed_weights(f, m, t, k, 0, 3);
    bezier_weights(m, k, 1);
    let w = rounding::whole();
    assert(1int * 1 * 1 == 1 && 0int * 0 * 0 == 0);
    assert(w * 1 == w && w * 0 == 0);
}

/// A Bezier patch begins and ends at the corners of its control points: the first row lies along
/// the first parameter.
pub proof fn bezier_patches_meet_their_corners<F: Fn(Op, u64, u64) -> u64>(
    f: F,
    m: Seq<u64>,
    ctrl: Seq<Vec3>,
)
    requires
        rounding::is_rounding(f),
        splines::matrix_of(Basis::Bezier) == Some(m),
        ctrl.len() == 16,
        forall|n: int| 0 <= n < 16 ==> is_point(#[trigger] ctrl[n]),
    ensures
        same_place(splines::bicubic_point(f, m, m, ctrl, ZERO, ZERO), ctrl[0]),
        same_place(splines::bicubic_point(f, m, m, ctrl, ONE, ZERO), ctrl[3]),
        same_place(splines::bicubic_point(f, m, m, ctrl, ZERO, ONE), ctrl[12]),
        same_place(splines::bicubic_point(f, m, m, ctrl, ONE, ONE), ctrl[15]),
{
    bezier_ends(f, m, ZERO, false);
    bezier_ends(f, m, ONE, true);
    patches_weigh_their_points(f, m, m, ctrl, ZERO, ZERO, 0, 0);
    patches_weigh_their_points(f, m, m, ctrl, ONE, ZERO, 3, 0);
    patches_weigh_their_points(f, m, m, ctrl, ZERO, ONE, 0, 3);
    patches_weigh_their_points(f, m, m, ctrl, ONE, ONE, 3, 3);
}

proof fn between_ends<F: Fn(Op, u64, u64) -> u64>(f: F, a: u64, b: u64, t: u64)
    requires
        rounding::is_rounding(f),
        double::is_finite(a),
        double::is_finite(b),
        t == ZERO || t == ONE,
    ensures
        ({
            let r = arith::sum(
                f,
                arith::product(f, a, arith::difference(f, ONE, t)),
                arith::product(f, b, t),
            );
            double::is_finite(r) && near::exact(r) == near::exact(
                if t == ZERO {
                    a
                } else {
                    b
                },
            )
        }),
{
    rounding::nought_and_one();
    let rest = arith::difference(f, ONE, t);
    if t == ZERO {
        rounding::sum_with_nought(f, ONE, t);
        rounding::product_with_one(f, a, rest);
        rounding::product_with_nought(f, b, t);
        rounding::sum_with_nought(f, arith::product(f, a, rest), arith::product(f, b, t));
    } else {
        subdivision_laws::constants_are_exact();
        rounding::difference_of_steps(f, ONE, 1, ONE, 1, 1074);
        assert(0 * pow2(1074) == 0);
        rounding::product_with_nought(f, a, rest);
        rounding::product_with_one(f, b, t);
        rounding::sum_with_nought(f, arith::product(f, b, t), arith::product(f, a, rest));
    }
}

/// A bilinear patch has its control points for corners: the first two along the first parameter.
pub proof fn bilinear_patches_meet_their_corners<F: Fn(Op, u64, u64) -> u64>(
    f: F,
    ctrl: Seq<Vec3>,
    u: u64,
    v: u64,
)
    requires
        rounding::is_rounding(f),
        ctrl.len() == 4,
        is_point(ctrl[0]) && is_point(ctrl[1]) && is_point(ctrl[2]) && is_point(ctrl[3]),
        u == ZERO || u == ONE,
        v == ZERO || v == ONE,
    ensures
        same_place(
            splines::bilinear_point(f, ctrl, u, v),
            if u == ZERO && v == ZERO {
                ctrl[0]
            } else if v == ZERO {
                ctrl[1]
            } else if u == ZERO {
                ctrl[2]
            } else {
                ctrl[3]
            },
        ),
{
    let (p, q) = (splines::between(f, ctrl[0], ctrl[1], u), splines::between(f, ctrl[2], ctrl[3], u));
    between_ends(f, ctrl[0].x, ctrl[1].x, u);
    between_ends(f, ctrl[0].y, ctrl[1].y, u);
    between_ends(f, ctrl[0].z, ctrl[1].z, u);
    between_ends(f, ctrl[2].x, ctrl[3].x, u);
    between_ends(f, ctrl[2].y, ctrl[3].y, u);
    between_ends(f, ctrl[2].z, ctrl[3].z, u);
    between_ends(f, p.x, q.x, v);
    between_ends(f, p.y, q.y, v);
    between_ends(f, p.z, q.z, v);
}

} // verus!
