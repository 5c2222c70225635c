//! Points of curved surfaces: bilinear and bicubic patches by their bases, and NURBS by the
//! basis functions of Cox and de Boor; and the meshes that they are diced into.

use crate::arith;
use crate::arith::{
    add_vectors, computes, count, divide_vector, minus, multiply_vector, over, plus, times, Op, TINY,
};
use crate::double;
use crate::geometry::mesh::{PolygonMesh, PolygonMeshView, Single2, Single3};
use crate::geometry::normals;
use crate::geometry::normals::{narrow_triple, smooth_normals};
use crate::geometry::patches;
use crate::geometry::patches::{
    controls, knot_span, tessellate_bicubic, tessellate_bilinear, tessellate_nurbs, Basis,
    GridSample, GridView, PatchGrid,
};
use crate::math;
use crate::math::{Vec3, HALF, MINUS_HALF, ONE, ZERO};
use crate::parser::requests::{NuPatchDef, NuPatchView, PatchMeshDef, PatchView};
use vstd::prelude::*;

verus! {

// ---- bases -----------------------------------------------------------------

pub const MINUS_ONE: u64 = 0xbff0_0000_0000_0000;

pub const THREE: u64 = 0x4008_0000_0000_0000;

pub const MINUS_THREE: u64 = 0xc008_0000_0000_0000;

pub const MINUS_SIX: u64 = 0xc018_0000_0000_0000;

pub const MINUS_SIXTH: u64 = 0xbfc5_5555_5555_5555;

pub const SIXTH: u64 = 0x3fc5_5555_5555_5555;

pub const TWO_THIRDS: u64 = 0x3fe5_5555_5555_5555;

pub const THREE_HALVES: u64 = 0x3ff8_0000_0000_0000;

pub const MINUS_THREE_HALVES: u64 = 0xbff8_0000_0000_0000;

pub const MINUS_FIVE_HALVES: u64 = 0xc004_0000_0000_0000;

pub const TWO: u64 = 0x4000_0000_0000_0000;

pub const MINUS_TWO: u64 = 0xc000_0000_0000_0000;

/// The matrix of a named basis, row by row: a row for each power of the parameter, the
/// cube first.
pub open spec fn matrix_of(basis: Basis) -> Option<Seq<u64>> {
    match basis {
        Basis::Bezier => Some(
            seq![
                MINUS_ONE, THREE, MINUS_THREE, ONE,
                THREE, MINUS_SIX, THREE, ZERO,
                MINUS_THREE, THREE, ZERO, ZERO,
                ONE, ZERO, ZERO, ZERO,
            ],
        ),
        Basis::BSpline => Some(
            seq![
                MINUS_SIXTH, HALF, MINUS_HALF, SIXTH,
                HALF, MINUS_ONE, HALF, ZERO,
                MINUS_HALF, ZERO, HALF, ZERO,
                SIXTH, TWO_THIRDS, SIXTH, ZERO,
            ],
        ),
        Basis::CatmullRom => Some(
            seq![
                MINUS_HALF, THREE_HALVES, MINUS_THREE_HALVES, HALF,
                ONE, MINUS_FIVE_HALVES, TWO, MINUS_HALF,
                MINUS_HALF, ZERO, HALF, ZERO,
                ZERO, ONE, ZERO, ZERO,
            ],
        ),
        Basis::Hermite => Some(
            seq![
                TWO, ONE, MINUS_TWO, ONE,
                MINUS_THREE, MINUS_TWO, THREE, MINUS_ONE,
                ZERO, ONE, ZERO, ZERO,
                ONE, ZERO, ZERO, ZERO,
            ],
        ),
        Basis::Power => Some(
            seq![
                ONE, ZERO, ZERO, ZERO,
                ZERO, ONE, ZERO, ZERO,
                ZERO, ZERO, ONE, ZERO,
                ZERO, ZERO, ZERO, ONE,
            ],
        ),
        Basis::Given { .. } => None,
    }
}

/// The matrix of a named basis.
pub fn named_matrix(basis: Basis) -> (r: Option<Vec<u64>>)
    ensures
        match r {
            Some(m) => matrix_of(basis) == Some(m@),
            None => matrix_of(basis) is None,
        },
{
    let r: Option<Vec<u64>> = match basis {
        Basis::Bezier => Some(
            vec![
                MINUS_ONE, THREE, MINUS_THREE, ONE,
                THREE, MINUS_SIX, THREE, ZERO,
                MINUS_THREE, THREE, ZERO, ZERO,
                ONE, ZERO, ZERO, ZERO,
            ],
        ),
        Basis::BSpline => Some(
            vec![
                MINUS_SIXTH, HALF, MINUS_HALF, SIXTH,
                HALF, MINUS_ONE, HALF, ZERO,
                MINUS_HALF, ZERO, HALF, ZERO,
                SIXTH, TWO_THIRDS, SIXTH, ZERO,
            ],
        ),
        Basis::CatmullRom => Some(
            vec![
                MINUS_HALF, THREE_HALVES, MINUS_THREE_HALVES, HALF,
                ONE, MINUS_FIVE_HALVES, TWO, MINUS_HALF,
                MINUS_HALF, ZERO, HALF, ZERO,
                ZERO, ONE, ZERO, ZERO,
            ],
        ),
        Basis::Hermite => Some(
            vec![
                TWO, ONE, MINUS_TWO, ONE,
                MINUS_THREE, MINUS_TWO, THREE, MINUS_ONE,
                ZERO, ONE, ZERO, ZERO,
                ONE, ZERO, ZERO, ZERO,
            ],
        ),
        Basis::Power => Some(
            vec![
                ONE, ZERO, ZERO, ZERO,
                ZERO, ONE, ZERO, ZERO,
                ZERO, ZERO, ONE, ZERO,
                ZERO, ZERO, ZERO, ONE,
            ],
        ),
        Basis::Given { .. } => None,
    };
    assert(r matches Some(m) ==> m@ =~= matrix_of(basis)->Some_0);
    r
}

/// The power of a parameter that belongs to a row.
pub open spec fn power_at<F: Fn(Op, u64, u64) -> u64>(f: F, t: u64, row: int) -> u64 {
    if row == 0 {
        arith::product(f, arith::product(f, t, t), t)
    } else if row == 1 {
        arith::product(f, t, t)
    } else if row == 2 {
        t
    } else {
        ONE
    }
}

/// The weight of a control point: the powers of the parameter by a column of the matrix,
/// summed over the first `rows` rows.
pub open spec fn weight_over<F: Fn(Op, u64, u64) -> u64>(
    f: F,
    m: Seq<u64>,
    t: u64,
    col: int,
    rows: int,
) -> u64
    decreases rows,
{
    if rows <= 0 {
        ZERO
    } else {
        arith::sum(
            f,
            weight_over(f, m, t, col, rows - 1),
            arith::product(f, power_at(f, t, rows - 1), m[4 * (rows - 1) + col]),
        )
    }
}

/// The weights of four control points.
pub open spec fn weights_at<F: Fn(Op, u64, u64) -> u64>(f: F, m: Seq<u64>, t: u64) -> Seq<u64> {
    Seq::new(4, |col: int| weight_over(f, m, t, col, 4))
}

/// The weights of the four control points of a cubic at a parameter.
pub fn basis_weights<F: Fn(Op, u64, u64) -> u64>(m: &Vec<u64>, t: u64, f: &F) -> (r: Vec<u64>)
    requires
        m@.len() == 16,
        computes(*f),
    ensures
        r@ == weights_at(*f, m@, t),
{
    let square: u64 = times(f, t, t);
    let powers: Vec<u64> = vec![times(f, square, t), square, t, ONE];
    let mut out: Vec<u64> = Vec::new();
    let mut col: usize = 0;
    while col < 4
        invariant
            col <= 4,
            m@.len() == 16,
            computes(*f),
            powers@.len() == 4,
            forall|k: int| 0 <= k < 4 ==> #[trigger] powers@[k] == power_at(*f, t, k),
            out@.len() == col,
            forall|k: int| 0 <= k < col ==> #[trigger] out@[k] == weight_over(*f, m@, t, k, 4),
        decreases 4 - col,
    {
        let mut w: u64 = ZERO;
        let mut row: usize = 0;
        while row < 4
            invariant
                row <= 4,
                col < 4,
                m@.len() == 16,
                computes(*f),
                powers@.len() == 4,
                forall|k: int| 0 <= k < 4 ==> #[trigger] powers@[k] == power_at(*f, t, k),
                w == weight_over(*f, m@, t, col as int, row as int),
            decreases 4 - row,
        {
            w = plus(f, w, times(f, powers[row], m[4 * row + col]));
            row += 1;
        }
        out.push(w);
        col += 1;
    }
    assert(out@ =~= weights_at(*f, m@, t));
    out
}

// ---- patches ---------------------------------------------------------------

/// The first `k` of sixteen control points, row by row, by their weights.
pub open spec fn weighed<F: Fn(Op, u64, u64) -> u64>(
    f: F,
    bu: Seq<u64>,
    bv: Seq<u64>,
    ctrl: Seq<Vec3>,
    k: int,
) -> Vec3
    decreases k,
{
    if k <= 0 {
        Vec3::of(ZERO, ZERO, ZERO)
    } else {
        arith::vector_sum(
            f,
            weighed(f, bu, bv, ctrl, k - 1),
            arith::vector_multiple(
                f,
                ctrl[k - 1],
                arith::product(f, bu[(k - 1) % 4], bv[(k - 1) / 4]),
            ),
        )
    }
}

/// The point of a bicubic patch at a pair of parameters.
pub open spec fn bicubic_point<F: Fn(Op, u64, u64) -> u64>(
    f: F,
    mu: Seq<u64>,
    mv: Seq<u64>,
    ctrl: Seq<Vec3>,
    u: u64,
    v: u64,
) -> Vec3 {
    weighed(f, weights_at(f, mu, u), weights_at(f, mv, v), ctrl, 16)
}

/// The point of a bicubic patch at a pair of parameters.
pub fn eval_bicubic<F: Fn(Op, u64, u64) -> u64>(
    mu: &Vec<u64>,
    mv: &Vec<u64>,
    ctrl: &Vec<Vec3>,
    u: u64,
    v: u64,
    f: &F,
) -> (r: Vec3)
    requires
        mu@.len() == 16,
        mv@.len() == 16,
        ctrl@.len() == 16,
        computes(*f),
    ensures
        r == bicubic_point(*f, mu@, mv@, ctrl@, u, v),
{
    let bu: Vec<u64> = basis_weights(mu, u, f);
    let bv: Vec<u64> = basis_weights(mv, v, f);
    let mut p: Vec3 = Vec3::zero();
    let mut k: usize = 0;
    while k < 16
        invariant
            k <= 16,
            ctrl@.len() == 16,
            computes(*f),
            bu@.len() == 4,
            bv@.len() == 4,
            p == weighed(*f, bu@, bv@, ctrl@, k as int),
        decreases 16 - k,
    {
        let w: u64 = times(f, bu[k % 4], bv[k / 4]);
        p = add_vectors(f, p, multiply_vector(f, ctrl[k], w));
        k += 1;
    }
    p
}

/// Between two points.
pub open spec fn between<F: Fn(Op, u64, u64) -> u64>(f: F, a: Vec3, b: Vec3, t: u64) -> Vec3 {
    arith::vector_sum(
        f,
        arith::vector_multiple(f, a, arith::difference(f, ONE, t)),
        arith::vector_multiple(f, b, t),
    )
}

fn blend<F: Fn(Op, u64, u64) -> u64>(f: &F, a: Vec3, b: Vec3, t: u64) -> (r: Vec3)
    requires
        computes(*f),
    ensures
        r == between(*f, a, b, t),
{
    let rest: u64 = minus(f, ONE, t);
    add_vectors(f, multiply_vector(f, a, rest), multiply_vector(f, b, t))
}

/// The point of a bilinear patch at a pair of parameters.
pub open spec fn bilinear_point<F: Fn(Op, u64, u64) -> u64>(
    f: F,
    ctrl: Seq<Vec3>,
    u: u64,
    v: u64,
) -> Vec3 {
    between(f, between(f, ctrl[0], ctrl[1], u), between(f, ctrl[2], ctrl[3], u), v)
}

/// The point of a bilinear patch at a pair of parameters.
pub fn eval_bilinear<F: Fn(Op, u64, u64) -> u64>(ctrl: &Vec<Vec3>, u: u64, v: u64, f: &F) -> (r:
    Vec3)
    requires
        ctrl@.len() == 4,
        computes(*f),
    ensures
        r == bilinear_point(*f, ctrl@, u, v),
{
    blend(f, blend(f, ctrl[0], ctrl[1], u), blend(f, ctrl[2], ctrl[3], u), v)
}

// ---- NURBS -----------------------------------------------------------------

/// The knot with this number; beyond the last one it is zero.
pub open spec fn knot_at(knots: Seq<u64>, i: int) -> u64 {
    if 0 <= i < knots.len() {
        knots[i]
    } else {
        ZERO
    }
}

/// The value of basis function `i` of degree `p` at a parameter in knot span `span`, by
/// the recursion of Cox and de Boor: the functions of one degree less, each by how far
/// the parameter is into its knots, and by how far it is from their end. Functions whose
/// knots do not hold the span are zero, and so is what would be divided by nothing.
pub open spec fn spline_value<F: Fn(Op, u64, u64) -> u64>(
    f: F,
    knots: Seq<u64>,
    span: int,
    t: u64,
    i: int,
    p: int,
) -> u64
    decreases p,
{
    if i > span || i + p < span {
        ZERO
    } else if p <= 0 {
        ONE
    } else {
        let d1 = arith::difference(f, knot_at(knots, i + p), knot_at(knots, i));
        let d2 = arith::difference(f, knot_at(knots, i + p + 1), knot_at(knots, i + 1));
        let rising = if double::below(TINY, d1) {
            arith::sum(
                f,
                ZERO,
                arith::quotient(
                    f,
                    arith::product(
                        f,
                        spline_value(f, knots, span, t, i, p - 1),
                        arith::difference(f, t, knot_at(knots, i)),
                    ),
                    d1,
                ),
            )
        } else {
            ZERO
        };
        if double::below(TINY, d2) {
            arith::sum(
                f,
                rising,
                arith::quotient(
                    f,
                    arith::product(
                        f,
                        spline_value(f, knots, span, t, i + 1, p - 1),
                        arith::difference(f, knot_at(knots, i + p + 1), t),
                    ),
                    d2,
                ),
            )
        } else {
            rising
        }
    }
}

/// The knot span of a parameter.
pub open spec fn span_of(knots: Seq<u64>, n_ctrl: nat, order: nat, t: u64) -> int {
    patches::span_from(
        knots,
        order - 1,
        patches::last_span(knots.len(), n_ctrl, order),
        t,
    )
}

/// The values of all basis functions of an order at a parameter.
pub open spec fn spline_values<F: Fn(Op, u64, u64) -> u64>(
    f: F,
    knots: Seq<u64>,
    n_ctrl: nat,
    order: nat,
    t: u64,
) -> Seq<u64> {
    let span = span_of(knots, n_ctrl, order, t);
    Seq::new(n_ctrl, |i: int| spline_value(f, knots, span, t, i, order - 1))
}

/// A knot span is no farther than the last one.
proof fn span_is_bounded(knots: Seq<u64>, i: int, hi: int, t: u64)
    requires
        0 <= i,
    ensures
        i <= patches::span_from(knots, i, hi, t),
        patches::span_from(knots, i, hi, t) == i || patches::span_from(knots, i, hi, t) < hi,
    decreases hi - i,
{
    if !(i >= hi - 1 || double::below(t, knots[i + 1])) {
        span_is_bounded(knots, i + 1, hi, t);
    }
}

fn knot(knots: &Vec<u64>, i: usize, further: usize) -> (r: u64)
    ensures
        r == knot_at(knots@, i + further),
{
    let n: usize = knots.len();
    if i < n && further < n - i {
        knots[i + further]
    } else {
        ZERO
    }
}

fn spline_step<F: Fn(Op, u64, u64) -> u64>(
    knots: &Vec<u64>,
    t: u64,
    i: usize,
    p: usize,
    here: u64,
    next: u64,
    f: &F,
) -> (r: u64)
    requires
        p < usize::MAX,
        computes(*f),
    ensures
        forall|span: int|
            i <= span <= i + p && p >= 1 && here == spline_value(
                *f,
                knots@,
                span,
                t,
                i as int,
                p - 1,
            ) && next == spline_value(*f, knots@, span, t, i + 1, p - 1) ==> r
                == #[trigger] spline_value(*f, knots@, span, t, i as int, p as int),
{
    let a: u64 = knot(knots, i, 0);
    let d1: u64 = minus(f, knot(knots, i, p), a);
    let end: u64 = knot(knots, i, p + 1);
    let d2: u64 = minus(f, end, knot(knots, i, 1));
    let rising: u64 = if double::less(TINY, d1) {
        plus(f, ZERO, over(f, times(f, here, minus(f, t, a)), d1))
    } else {
        ZERO
    };
    if double::less(TINY, d2) {
        plus(f, rising, over(f, times(f, next, minus(f, end, t)), d2))
    } else {
        rising
    }
}

/// The values of all basis functions of an order at a parameter; those whose knots do not
/// hold it are zero.
pub fn bspline_basis<F: Fn(Op, u64, u64) -> u64>(
    knots: &Vec<u64>,
    n_ctrl: usize,
    order: usize,
    t: u64,
    f: &F,
) -> (r: Vec<u64>)
    requires
        order >= 1,
        n_ctrl + order < usize::MAX,
        computes(*f),
    ensures
        r@ == spline_values(*f, knots@, n_ctrl as nat, order as nat, t),
{
    let degree: usize = order - 1;
    let span: usize = knot_span(knots.as_slice(), n_ctrl, order, t);
    proof {
        span_is_bounded(
            knots@,
            degree as int,
            patches::last_span(knots@.len(), n_ctrl as nat, order as nat),
            t,
        );
    }
    let n: usize = n_ctrl + order;
    assert(degree <= span < n);
    let mut basis: Vec<u64> = Vec::new();
    let mut i: usize = 0;
    while i < n + 1
        invariant
            i <= n + 1,
            n < usize::MAX,
            basis@.len() == i,
            forall|k: int|
                0 <= k < i ==> #[trigger] basis@[k] == spline_value(
                    *f,
                    knots@,
                    span as int,
                    t,
                    k,
                    0,
                ),
        decreases n + 1 - i,
    {
        basis.push(
            if i == span {
                ONE
            } else {
                ZERO
            },
        );
        i += 1;
    }
    let mut p: usize = 1;
    while p <= degree
        invariant
            1 <= p <= degree + 1,
            degree <= span < n,
            n < usize::MAX,
            computes(*f),
            basis@.len() == n + 1,
            forall|k: int|
                0 <= k <= n ==> #[trigger] basis@[k] == spline_value(
                    *f,
                    knots@,
                    span as int,
                    t,
                    k,
                    p - 1,
                ),
        decreases degree + 1 - p,
    {
        let mut i: usize = span - p;
        assert forall|k: int| 0 <= k < i implies #[trigger] basis@[k] == spline_value(
            *f,
            knots@,
            span as int,
            t,
            k,
            p as int,
        ) by {}
        while i <= span
            invariant
                1 <= p <= degree,
                degree <= span < n,
                n < usize::MAX,
                span - p <= i <= span + 1,
                computes(*f),
                basis@.len() == n + 1,
                forall|k: int|
                    0 <= k < i ==> #[trigger] basis@[k] == spline_value(
                        *f,
                        knots@,
                        span as int,
                        t,
                        k,
                        p as int,
                    ),
                forall|k: int|
                    i <= k <= n ==> #[trigger] basis@[k] == spline_value(
                        *f,
                        knots@,
                        span as int,
                        t,
                        k,
                        p - 1,
                    ),
            decreases span + 1 - i,
        {
            let here: u64 = basis[i];
            let next: u64 = basis[i + 1];
            basis[i] = spline_step(knots, t, i, p, here, next, f);
            assert(basis@[i as int] == spline_value(
                *f,
                knots@,
                span as int,
                t,
                i as int,
                p as int,
            ));
            i += 1;
        }
        assert forall|k: int| 0 <= k <= n implies #[trigger] basis@[k] == spline_value(
            *f,
            knots@,
            span as int,
            t,
            k,
            p as int,
        ) by {}
        p += 1;
    }
    basis.truncate(n_ctrl);
    assert(basis@ =~= spline_values(*f, knots@, n_ctrl as nat, order as nat, t));
    basis
}

/// A basis function is zero except where its knots hold the span of the parameter.
pub proof fn splines_are_local<F: Fn(Op, u64, u64) -> u64>(
    f: F,
    knots: Seq<u64>,
    span: int,
    t: u64,
    i: int,
    p: int,
)
    requires
        span < i || i + p < span,
    ensures
        spline_value(f, knots, span, t, i, p) == ZERO,
{
}

/// A zero of either sign.
pub open spec fn is_zero(bits: u64) -> bool {
    bits == 0 || bits == 0x8000_0000_0000_0000
}

/// The numbers of a control point.
pub open spec fn stride_of(rational: bool) -> int {
    if rational {
        4
    } else {
        3
    }
}

/// The sums over control points: of their places and of their own weights, both by the
/// values of the basis functions.
pub struct NurbsSums {
    pub place: Vec3,
    pub weight: u64,
}

/// The sums over the first `k` control points, row by row. Points whose basis functions
/// are zero are passed over.
pub open spec fn nurbs_sums<F: Fn(Op, u64, u64) -> u64>(
    f: F,
    d: NuPatchView,
    bu: Seq<u64>,
    bv: Seq<u64>,
    k: int,
) -> NurbsSums
    decreases k,
{
    if k <= 0 {
        NurbsSums { place: Vec3::of(ZERO, ZERO, ZERO), weight: ZERO }
    } else {
        let before = nurbs_sums(f, d, bu, bv, k - 1);
        let nu = d.nu as int;
        let w = arith::product(f, bu[(k - 1) % nu], bv[(k - 1) / nu]);
        if is_zero(bv[(k - 1) / nu]) || is_zero(w) {
            before
        } else {
            let p = (k - 1) * stride_of(d.rational);
            let own = if d.rational {
                d.points[p + 3]
            } else {
                ONE
            };
            NurbsSums {
                place: arith::vector_sum(
                    f,
                    before.place,
                    arith::vector_multiple(
                        f,
                        Vec3::of(d.points[p], d.points[p + 1], d.points[p + 2]),
                        w,
                    ),
                ),
                weight: arith::sum(f, before.weight, arith::product(f, own, w)),
            }
        }
    }
}

/// The point of a NURBS surface at a pair of parameters; a rational one is divided by its
/// weight, where that is not nothing.
pub open spec fn nurbs_point<F: Fn(Op, u64, u64) -> u64>(
    f: F,
    d: NuPatchView,
    u: u64,
    v: u64,
) -> Vec3 {
    let bu = spline_values(f, d.uknot, d.nu as nat, d.uorder as nat, u);
    let bv = spline_values(f, d.vknot, d.nv as nat, d.vorder as nat, v);
    let sums = nurbs_sums(f, d, bu, bv, d.nu * d.nv);
    if d.rational && double::below(TINY, double::magnitude(sums.weight)) {
        arith::vector_part(f, sums.place, sums.weight)
    } else {
        sums.place
    }
}

/// Whether a NURBS surface has its control points, and orders that splines can have.
pub open spec fn is_nurbs(d: NuPatchView) -> bool {
    &&& d.uorder >= 1
    &&& d.vorder >= 1
    &&& d.nu + d.uorder < usize::MAX
    &&& d.nv + d.vorder < usize::MAX
    &&& patches::covers_grid(
        d.points.len(),
        d.nu as nat,
        d.nv as nat,
        stride_of(d.rational) as nat,
    )
}

/// The point of a NURBS surface at a pair of parameters.
pub fn eval_nurbs<F: Fn(Op, u64, u64) -> u64>(def: &NuPatchDef, u: u64, v: u64, f: &F) -> (r: Vec3)
    requires
        is_nurbs(def@),
        computes(*f),
    ensures
        r == nurbs_point(*f, def@, u, v),
{
    let bu: Vec<u64> = bspline_basis(&def.uknot, def.nu, def.uorder, u, f);
    let bv: Vec<u64> = bspline_basis(&def.vknot, def.nv, def.vorder, v, f);
    let stride: usize = if def.rational {
        4
    } else {
        3
    };
    let have: usize = def.points.len();
    let nu: usize = def.nu;
    assert(0 <= nu * def.nv && nu * def.nv * stride <= have) by (nonlinear_arith)
        requires
            have >= nu * def.nv * stride,
            nu >= 0,
            def.nv >= 0,
    ;
    assert(nu * def.nv <= nu * def.nv * stride) by (nonlinear_arith)
        requires
            stride >= 3,
            0 <= nu * def.nv,
    ;
    let total: usize = nu * def.nv;
    let mut sums: NurbsSums = NurbsSums { place: Vec3::zero(), weight: ZERO };
    let mut k: usize = 0;
    while k < total
        invariant
            k <= total,
            nu == def.nu,
            total == nu * def.nv,
            stride == stride_of(def.rational),
            total * stride <= have == def.points@.len(),
            bu@.len() == nu,
            bv@.len() == def.nv,
            computes(*f),
            sums == nurbs_sums(*f, def@, bu@, bv@, k as int),
        decreases total - k,
    {
        assert(nu >= 1 && 0 <= k / nu < def.nv) by (nonlinear_arith)
            requires
                0 <= k < nu * def.nv,
                nu >= 0,
        ;
        assert(k * stride + stride <= total * stride) by (nonlinear_arith)
            requires
                k + 1 <= total,
                stride >= 3,
        ;
        assert(0 <= k * stride) by (nonlinear_arith)
            requires
                k >= 0,
                stride >= 3,
        ;
        let b: u64 = bv[k / nu];
        let w: u64 = times(f, bu[k % nu], b);
        let dead: bool = b == 0 || b == 0x8000_0000_0000_0000 || w == 0 || w
            == 0x8000_0000_0000_0000;
        if !dead {
            let p: usize = k * stride;
            let at: Vec3 = Vec3::new(def.points[p], def.points[p + 1], def.points[p + 2]);
            let own: u64 = if def.rational {
                def.points[p + 3]
            } else {
                ONE
            };
            sums = NurbsSums {
                place: add_vectors(f, sums.place, multiply_vector(f, at, w)),
                weight: plus(f, sums.weight, times(f, own, w)),
            };
        }
        k += 1;
    }
    if def.rational && double::less(TINY, double::absolute(sums.weight)) {
        divide_vector(f, sums.place, sums.weight)
    } else {
        sums.place
    }
}

// ---- meshes ----------------------------------------------------------------

/// How far sample `s` is into patch `p`, of `segs` samples each.
pub open spec fn place_in<F: Fn(Op, u64, u64) -> u64>(f: F, s: int, segs: int, p: int) -> u64 {
    arith::difference(f, arith::quotient(f, arith::counted(s), arith::counted(segs)), arith::counted(p))
}

fn find_place<F: Fn(Op, u64, u64) -> u64>(f: &F, s: usize, segs: usize, p: usize) -> (r: u64)
    requires
        computes(*f),
        s <= u32::MAX,
        segs <= u32::MAX,
        p <= u32::MAX,
    ensures
        r == place_in(*f, s as int, segs as int, p as int),
{
    minus(f, over(f, count(s), count(segs)), count(p))
}

/// The surface parameters of a sample: how far it is along both directions.
pub open spec fn sample_st<F: Fn(Op, u64, u64) -> u64>(
    f: F,
    s: GridSample,
    across_u: int,
    across_v: int,
) -> Single2 {
    Single2 {
        s: double::narrowed(arith::quotient(f, arith::counted(s.su as int), arith::counted(across_u))),
        t: double::narrowed(arith::quotient(f, arith::counted(s.sv as int), arith::counted(across_v))),
    }
}

/// The mesh of a grid with a point for each sample: the normals are smooth.
pub open spec fn sheet<F: Fn(Op, u64, u64) -> u64>(
    f: F,
    grid: GridView,
    positions: Seq<Single3>,
    across_u: int,
    across_v: int,
) -> PolygonMeshView {
    PolygonMeshView {
        positions,
        indices: grid.indices,
        normals: Some(normals::vertex_normals(f, positions, grid.indices)),
        st: Some(
            Seq::new(
                grid.samples.len(),
                |k: int| sample_st(f, grid.samples[k], across_u, across_v),
            ),
        ),
        positions1: None,
    }
}

/// Whether the samples of a grid can be numbered.
pub open spec fn numbered(
    npu: int,
    npv: int,
    segs_u: int,
    segs_v: int,
    u_wrap: bool,
    v_wrap: bool,
) -> bool {
    npu > 0 && npv > 0 ==> patches::grid_side(npu, segs_u, u_wrap) * patches::grid_side(
        npv,
        segs_v,
        v_wrap,
    ) <= u32::MAX
}

proof fn numbered_grids_fit(
    npu: int,
    npv: int,
    segs_u: int,
    segs_v: int,
    u_wrap: bool,
    v_wrap: bool,
)
    requires
        npu > 0,
        npv > 0,
        segs_u >= 1,
        segs_v >= 1,
        numbered(npu, npv, segs_u, segs_v, u_wrap, v_wrap),
    ensures
        patches::grid_fits(npu, npv, segs_u, segs_v, u_wrap, v_wrap),
        1 <= patches::grid_side(npu, segs_u, u_wrap) <= u32::MAX,
        1 <= patches::grid_side(npv, segs_v, v_wrap) <= u32::MAX,
        1 <= npu * segs_u <= u32::MAX,
        1 <= npv * segs_v <= u32::MAX,
        npu <= u32::MAX,
        npv <= u32::MAX,
        segs_u <= u32::MAX,
        segs_v <= u32::MAX,
{
    let gu = patches::grid_side(npu, segs_u, u_wrap);
    let gv = patches::grid_side(npv, segs_v, v_wrap);
    assert(npu * segs_u >= npu && npu * segs_u >= segs_u) by (nonlinear_arith)
        requires
            npu >= 1,
            segs_u >= 1,
    ;
    assert(npv * segs_v >= npv && npv * segs_v >= segs_v) by (nonlinear_arith)
        requires
            npv >= 1,
            segs_v >= 1,
    ;
    assert(gu <= gu * gv && gv <= gu * gv) by (nonlinear_arith)
        requires
            gu >= 1,
            gv >= 1,
    ;
}

fn make_sheet<F: Fn(Op, u64, u64) -> u64>(
    grid: PatchGrid,
    positions: Vec<Single3>,
    across_u: usize,
    across_v: usize,
    f: &F,
) -> (r: PolygonMesh)
    requires
        computes(*f),
        across_u <= u32::MAX,
        across_v <= u32::MAX,
        positions@.len() == grid@.samples.len(),
        normals::names_vertices(grid@.indices, positions@.len() as int),
        forall|k: int|
            0 <= k < grid@.samples.len() ==> (#[trigger] grid@.samples[k]).su <= u32::MAX
                && grid@.samples[k].sv <= u32::MAX,
    ensures
        r@ == sheet(*f, grid@, positions@, across_u as int, across_v as int),
{
    let ghost model = sheet(*f, grid@, positions@, across_u as int, across_v as int);
    let n: usize = grid.samples.len();
    let du: u64 = count(across_u);
    let dv: u64 = count(across_v);
    let mut st: Vec<Single2> = Vec::new();
    let mut k: usize = 0;
    while k < n
        invariant
            k <= n == grid.samples@.len(),
            computes(*f),
            du == arith::counted(across_u as int),
            dv == arith::counted(across_v as int),
            forall|k: int|
                0 <= k < n ==> (#[trigger] grid.samples@[k]).su <= u32::MAX && grid.samples@[k].sv
                    <= u32::MAX,
            st@.len() == k,
            forall|j: int|
                0 <= j < k ==> #[trigger] st@[j] == sample_st(
                    *f,
                    grid.samples@[j],
                    across_u as int,
                    across_v as int,
                ),
        decreases n - k,
    {
        let s: GridSample = grid.samples[k];
        st.push(
            Single2 {
                s: double::narrow(over(f, count(s.su), du)),
                t: double::narrow(over(f, count(s.sv), dv)),
            },
        );
        k += 1;
    }
    let lit: Vec<Single3> = smooth_normals(&positions, &grid.indices, f);
    assert(st@ =~= model.st->Some_0);
    PolygonMesh {
        positions,
        indices: grid.indices,
        normals: Some(lit),
        st: Some(st),
        positions1: None,
    }
}

/// The parameter of a NURBS surface at a sample.
pub open spec fn nurbs_parameter<F: Fn(Op, u64, u64) -> u64>(
    f: F,
    lo: u64,
    hi: u64,
    s: int,
    segs: int,
) -> u64 {
    arith::sum(
        f,
        lo,
        arith::quotient(
            f,
            arith::product(f, arith::difference(f, hi, lo), arith::counted(s)),
            arith::counted(segs),
        ),
    )
}

/// The points of a NURBS surface at the samples of its grid.
pub open spec fn nurbs_positions<F: Fn(Op, u64, u64) -> u64>(
    f: F,
    d: NuPatchView,
    segs_u: int,
    segs_v: int,
) -> Seq<Single3> {
    let samples = patches::grid_over(1, 1, segs_u, segs_v, false, false).samples;
    Seq::new(
        samples.len(),
        |k: int|
            normals::single_triple(
                nurbs_point(
                    f,
                    d,
                    nurbs_parameter(f, d.umin, d.umax, samples[k].su as int, segs_u),
                    nurbs_parameter(f, d.vmin, d.vmax, samples[k].sv as int, segs_v),
                ),
            ),
    )
}

fn find_parameter<F: Fn(Op, u64, u64) -> u64>(f: &F, lo: u64, hi: u64, s: usize, segs: usize) -> (r:
    u64)
    requires
        computes(*f),
        s <= u32::MAX,
        segs <= u32::MAX,
    ensures
        r == nurbs_parameter(*f, lo, hi, s as int, segs as int),
{
    plus(f, lo, over(f, times(f, minus(f, hi, lo), count(s)), count(segs)))
}

/// The mesh of a NURBS surface; none where control points are missing.
pub fn nurbs_mesh<F: Fn(Op, u64, u64) -> u64>(
    def: &NuPatchDef,
    segs_u: usize,
    segs_v: usize,
    f: &F,
) -> (r: Option<PolygonMesh>)
    requires
        computes(*f),
        segs_u >= 1,
        segs_v >= 1,
        numbered(1, 1, segs_u as int, segs_v as int, false, false),
        def.uorder >= 1,
        def.vorder >= 1,
        def.nu + def.uorder < usize::MAX,
        def.nv + def.vorder < usize::MAX,
    ensures
        r is Some <==> is_nurbs(def@),
        r matches Some(m) ==> m@ == sheet(
            *f,
            patches::grid_over(1, 1, segs_u as int, segs_v as int, false, false),
            nurbs_positions(*f, def@, segs_u as int, segs_v as int),
            segs_u as int,
            segs_v as int,
        ),
{
    let ghost su = segs_u as int;
    let ghost sv = segs_v as int;
    proof {
        numbered_grids_fit(1, 1, su, sv, false, false);
    }
    let found: Option<PatchGrid> = tessellate_nurbs(
        def.points.len(),
        def.nu,
        def.nv,
        def.rational,
        segs_u,
        segs_v,
    );
    let grid: PatchGrid = match found {
        Some(g) => g,
        None => {
            return None;
        },
    };
    let ghost model = patches::grid_over(1, 1, su, sv, false, false);
    proof {
        assert(grid@ == model);
        patches::grids_name_their_samples(
            patches::grid_cells(model.gv, false),
            patches::grid_cells(model.gu, false),
            model.gu,
            model.gv,
        );
        assert forall|k: int| 0 <= k < model.samples.len() implies (#[trigger] model.samples[k]).su
            <= u32::MAX && model.samples[k].sv <= u32::MAX by {
            patches::samples_lie_on_patches(1, 1, su, sv, false, false, k);
        }
    }
    let n: usize = grid.samples.len();
    let mut positions: Vec<Single3> = Vec::new();
    let mut k: usize = 0;
    while k < n
        invariant
            k <= n == grid.samples@.len(),
            segs_u <= u32::MAX,
            segs_v <= u32::MAX,
            computes(*f),
            is_nurbs(def@),
            grid.samples@ == patches::grid_over(
                1,
                1,
                segs_u as int,
                segs_v as int,
                false,
                false,
            ).samples,
            forall|k: int|
                0 <= k < n ==> (#[trigger] grid.samples@[k]).su <= u32::MAX && grid.samples@[k].sv
                    <= u32::MAX,
            positions@.len() == k,
            forall|j: int|
                0 <= j < k ==> #[trigger] positions@[j] == nurbs_positions(
                    *f,
                    def@,
                    segs_u as int,
                    segs_v as int,
                )[j],
        decreases n - k,
    {
        let s: GridSample = grid.samples[k];
        let u: u64 = find_parameter(f, def.umin, def.umax, s.su, segs_u);
        let v: u64 = find_parameter(f, def.vmin, def.vmax, s.sv, segs_v);
        positions.push(narrow_triple(eval_nurbs(def, u, v, f)));
        k += 1;
    }
    assert(positions@ =~= nurbs_positions(*f, def@, su, sv));
    Some(make_sheet(grid, positions, segs_u, segs_v, f))
}

/// The control points of a patch mesh from a place on, `across` by `across` of them.
pub open spec fn controls_from(d: PatchView, i: int, j: int, across: int) -> Seq<Vec3> {
    Seq::new(
        (across * across) as nat,
        |c: int|
            math::triple(
                d.points,
                patches::control_at(i + c % across, j + c / across, d.nu as int, d.nv as int),
            ),
    )
}

fn find_controls(def: &PatchMeshDef, i: usize, j: usize, across: usize) -> (r: Vec<Vec3>)
    requires
        across == 2 || across == 4,
        def.nu >= 1,
        def.nv >= 1,
        i + across <= usize::MAX,
        j + across <= usize::MAX,
        patches::covers_grid(def@.points.len(), def.nu as nat, def.nv as nat, 3),
    ensures
        r@ == controls_from(def@, i as int, j as int, across as int),
{
    let have: usize = def.points.len();
    let ghost total = def.nu * def.nv;
    assert(0 <= total) by (nonlinear_arith)
        requires
            total == def.nu * def.nv,
            def.nu >= 1,
            def.nv >= 1,
    ;
    let at: Vec<usize> = controls(def.nu, def.nv, i, j, across);
    let n: usize = across * across;
    let mut out: Vec<Vec3> = Vec::new();
    let mut c: usize = 0;
    while c < n
        invariant
            c <= n == at@.len(),
            across == 2 || across == 4,
            n == across * across,
            total == def.nu * def.nv,
            have == def.points@.len(),
            3 * total <= have,
            forall|k: int| 0 <= k < n ==> #[trigger] at@[k] < total,
            forall|a: int, b: int|
                0 <= a < across && 0 <= b < across ==> #[trigger] at@[b * across + a]
                    == patches::control_at(i + a, j + b, def.nu as int, def.nv as int),
            out@.len() == c,
            forall|k: int|
                0 <= k < c ==> #[trigger] out@[k] == controls_from(
                    def@,
                    i as int,
                    j as int,
                    across as int,
                )[k],
        decreases n - c,
    {
        let p: usize = at[c];
        proof {
            let a = c as int % across as int;
            let b = c as int / across as int;
            assert(0 <= a < across && 0 <= b < across && b * across + a == c) by (nonlinear_arith)
                requires
                    a == c as int % across as int,
                    b == c as int / across as int,
                    0 <= c < across * across,
                    across >= 1,
            ;
            assert(at@[b * across + a] == p);
        }
        out.push(Vec3::new(def.points[3 * p], def.points[3 * p + 1], def.points[3 * p + 2]));
        c += 1;
    }
    assert(out@ =~= controls_from(def@, i as int, j as int, across as int));
    out
}

/// The grid that a patch mesh is diced into.
pub open spec fn shape_of(d: PatchView) -> patches::PatchMeshDef {
    patches::PatchMeshDef {
        points_len: d.points.len() as usize,
        nu: d.nu,
        nv: d.nv,
        u_wrap: d.u_wrap,
        v_wrap: d.v_wrap,
    }
}

/// The points of a bicubic patch mesh at the samples of its grid.
pub open spec fn bicubic_positions<F: Fn(Op, u64, u64) -> u64>(
    f: F,
    d: PatchView,
    mu: Seq<u64>,
    mv: Seq<u64>,
    ustep: int,
    vstep: int,
    segs: int,
    samples: Seq<GridSample>,
) -> Seq<Single3> {
    Seq::new(
        samples.len(),
        |k: int|
            normals::single_triple(
                bicubic_point(
                    f,
                    mu,
                    mv,
                    controls_from(d, samples[k].pu * ustep, samples[k].pv * vstep, 4),
                    place_in(f, samples[k].su as int, segs, samples[k].pu as int),
                    place_in(f, samples[k].sv as int, segs, samples[k].pv as int),
                ),
            ),
    )
}

/// The mesh of a bicubic patch mesh.
pub open spec fn bicubic_sheet<F: Fn(Op, u64, u64) -> u64>(
    f: F,
    d: PatchView,
    mu: Seq<u64>,
    mv: Seq<u64>,
    ustep: nat,
    vstep: nat,
    segs: nat,
) -> Option<PolygonMeshView> {
    match patches::bicubic_grid(shape_of(d), ustep, vstep, segs) {
        None => None,
        Some(grid) => Some(
            sheet(
                f,
                grid,
                bicubic_positions(
                    f,
                    d,
                    mu,
                    mv,
                    ustep as int,
                    vstep as int,
                    segs as int,
                    grid.samples,
                ),
                (patches::bicubic_spans(d.nu as nat, ustep, d.u_wrap) * segs) as int,
                (patches::bicubic_spans(d.nv as nat, vstep, d.v_wrap) * segs) as int,
            ),
        ),
    }
}

/// The first control point of a patch is one of its direction.
proof fn patches_start_inside(n: nat, step: nat, wrap: bool, p: int)
    requires
        step >= 1,
        0 <= p < patches::bicubic_spans(n, step, wrap),
    ensures
        0 <= p * step <= n,
{
    let q = if wrap {
        n as int
    } else {
        n - 4
    };
    assert(0 <= p * step <= q) by (nonlinear_arith)
        requires
            0 <= p <= q / step as int,
            step >= 1,
            q >= 0,
    ;
}

/// What an optional mesh is.
pub open spec fn opt_mesh(m: Option<PolygonMesh>) -> Option<PolygonMeshView> {
    match m {
        Some(m) => Some(m@),
        None => None,
    }
}

/// The mesh of a bicubic patch mesh with these bases, each patch cut into `segs` along both
/// directions.
pub fn bicubic_mesh<F: Fn(Op, u64, u64) -> u64>(
    def: &PatchMeshDef,
    mu: &Vec<u64>,
    ustep: usize,
    mv: &Vec<u64>,
    vstep: usize,
    segs: usize,
    f: &F,
) -> (r: Option<PolygonMesh>)
    requires
        computes(*f),
        mu@.len() == 16,
        mv@.len() == 16,
        ustep >= 1,
        vstep >= 1,
        segs >= 1,
        numbered(
            patches::bicubic_spans(def.nu as nat, ustep as nat, def.u_wrap) as int,
            patches::bicubic_spans(def.nv as nat, vstep as nat, def.v_wrap) as int,
            segs as int,
            segs as int,
            def.u_wrap,
            def.v_wrap,
        ),
    ensures
        opt_mesh(r) == bicubic_sheet(
            *f,
            def@,
            mu@,
            mv@,
            ustep as nat,
            vstep as nat,
            segs as nat,
        ),
{
    let shape: patches::PatchMeshDef = patches::PatchMeshDef {
        points_len: def.points.len(),
        nu: def.nu,
        nv: def.nv,
        u_wrap: def.u_wrap,
        v_wrap: def.v_wrap,
    };
    let npu: usize = patches::bicubic_span_count(def.nu, ustep, def.u_wrap);
    let npv: usize = patches::bicubic_span_count(def.nv, vstep, def.v_wrap);
    let ghost model = patches::grid_over(
        npu as int,
        npv as int,
        segs as int,
        segs as int,
        def.u_wrap,
        def.v_wrap,
    );
    proof {
        if npu > 0 && npv > 0 {
            numbered_grids_fit(
                npu as int,
                npv as int,
                segs as int,
                segs as int,
                def.u_wrap,
                def.v_wrap,
            );
        }
    }
    let found: Option<PatchGrid> = tessellate_bicubic(&shape, ustep, vstep, segs);
    let grid: PatchGrid = match found {
        Some(g) => g,
        None => {
            return None;
        },
    };
    proof {
        assert(grid@ == model);
        patches::grids_name_their_samples(
            patches::grid_cells(model.gv, def.v_wrap),
            patches::grid_cells(model.gu, def.u_wrap),
            model.gu,
            model.gv,
        );
        assert forall|k: int| 0 <= k < model.samples.len() implies (#[trigger] model.samples[k]).su
            <= u32::MAX && model.samples[k].sv <= u32::MAX && model.samples[k].pu < npu
            && model.samples[k].pv < npv by {
            patches::samples_lie_on_patches(
                npu as int,
                npv as int,
                segs as int,
                segs as int,
                def.u_wrap,
                def.v_wrap,
                k,
            );
        }
        assert(def.nu * 3 <= def@.points.len() && def.nv * 3 <= def@.points.len()) by (
            nonlinear_arith)
            requires
                def@.points.len() >= def.nu * def.nv * 3,
                def.nu >= 1,
                def.nv >= 1,
        ;
    }
    let have: usize = def.points.len();
    let n: usize = grid.samples.len();
    let mut positions: Vec<Single3> = Vec::new();
    let mut k: usize = 0;
    while k < n
        invariant
            k <= n == grid.samples@.len(),
            computes(*f),
            mu@.len() == 16,
            mv@.len() == 16,
            ustep >= 1,
            vstep >= 1,
            segs <= u32::MAX,
            npu <= u32::MAX,
            npv <= u32::MAX,
            npu == patches::bicubic_spans(def.nu as nat, ustep as nat, def.u_wrap),
            npv == patches::bicubic_spans(def.nv as nat, vstep as nat, def.v_wrap),
            def.nu >= 1,
            def.nv >= 1,
            have == def.points@.len(),
            def.nu * 3 <= have,
            def.nv * 3 <= have,
            patches::covers_grid(def@.points.len(), def.nu as nat, def.nv as nat, 3),
            forall|k: int|
                0 <= k < n ==> (#[trigger] grid.samples@[k]).su <= u32::MAX && grid.samples@[k].sv
                    <= u32::MAX && grid.samples@[k].pu < npu && grid.samples@[k].pv < npv,
            positions@.len() == k,
            forall|j: int|
                0 <= j < k ==> #[trigger] positions@[j] == bicubic_positions(
                    *f,
                    def@,
                    mu@,
                    mv@,
                    ustep as int,
                    vstep as int,
                    segs as int,
                    grid.samples@,
                )[j],
        decreases n - k,
    {
        let s: GridSample = grid.samples[k];
        proof {
            patches_start_inside(def.nu as nat, ustep as nat, def.u_wrap, s.pu as int);
            patches_start_inside(def.nv as nat, vstep as nat, def.v_wrap, s.pv as int);
        }
        let ctrl: Vec<Vec3> = find_controls(def, s.pu * ustep, s.pv * vstep, 4);
        let u: u64 = find_place(f, s.su, segs, s.pu);
        let v: u64 = find_place(f, s.sv, segs, s.pv);
        positions.push(narrow_triple(eval_bicubic(mu, mv, &ctrl, u, v, f)));
        k += 1;
    }
    assert(positions@ =~= bicubic_positions(
        *f,
        def@,
        mu@,
        mv@,
        ustep as int,
        vstep as int,
        segs as int,
        grid@.samples,
    ));
    Some(make_sheet(grid, positions, npu * segs, npv * segs, f))
}

/// The points of a bilinear patch mesh at the samples of its grid.
pub open spec fn bilinear_positions<F: Fn(Op, u64, u64) -> u64>(
    f: F,
    d: PatchView,
    segs: int,
    samples: Seq<GridSample>,
) -> Seq<Single3> {
    Seq::new(
        samples.len(),
        |k: int|
            normals::single_triple(
                bilinear_point(
                    f,
                    controls_from(d, samples[k].pu as int, samples[k].pv as int, 2),
                    place_in(f, samples[k].su as int, segs, samples[k].pu as int),
                    place_in(f, samples[k].sv as int, segs, samples[k].pv as int),
                ),
            ),
    )
}

/// The mesh of a bilinear patch mesh.
pub open spec fn bilinear_sheet<F: Fn(Op, u64, u64) -> u64>(
    f: F,
    d: PatchView,
    segs: nat,
) -> Option<PolygonMeshView> {
    match patches::bilinear_grid(shape_of(d), segs) {
        None => None,
        Some(grid) => Some(
            sheet(
                f,
                grid,
                bilinear_positions(f, d, segs as int, grid.samples),
                (patches::bilinear_spans(d.nu as nat, d.u_wrap) * segs) as int,
                (patches::bilinear_spans(d.nv as nat, d.v_wrap) * segs) as int,
            ),
        ),
    }
}

/// The mesh of a bilinear patch mesh, each patch cut into `segs` along both directions.
pub fn bilinear_mesh<F: Fn(Op, u64, u64) -> u64>(def: &PatchMeshDef, segs: usize, f: &F) -> (r:
    Option<PolygonMesh>)
    requires
        computes(*f),
        segs >= 1,
        numbered(
            patches::bilinear_spans(def.nu as nat, def.u_wrap) as int,
            patches::bilinear_spans(def.nv as nat, def.v_wrap) as int,
            segs as int,
            segs as int,
            def.u_wrap,
            def.v_wrap,
        ),
    ensures
        opt_mesh(r) == bilinear_sheet(*f, def@, segs as nat),
{
    let shape: patches::PatchMeshDef = patches::PatchMeshDef {
        points_len: def.points.len(),
        nu: def.nu,
        nv: def.nv,
        u_wrap: def.u_wrap,
        v_wrap: def.v_wrap,
    };
    let npu: usize = patches::bilinear_span_count(def.nu, def.u_wrap);
    let npv: usize = patches::bilinear_span_count(def.nv, def.v_wrap);
    let ghost model = patches::grid_over(
        npu as int,
        npv as int,
        segs as int,
        segs as int,
        def.u_wrap,
        def.v_wrap,
    );
    proof {
        if npu > 0 && npv > 0 {
            numbered_grids_fit(
                npu as int,
                npv as int,
                segs as int,
                segs as int,
                def.u_wrap,
                def.v_wrap,
            );
        }
    }
    let found: Option<PatchGrid> = tessellate_bilinear(&shape, segs);
    let grid: PatchGrid = match found {
        Some(g) => g,
        None => {
            return None;
        },
    };
    proof {
        assert(grid@ == model);
        patches::grids_name_their_samples(
            patches::grid_cells(model.gv, def.v_wrap),
            patches::grid_cells(model.gu, def.u_wrap),
            model.gu,
            model.gv,
        );
        assert forall|k: int| 0 <= k < model.samples.len() implies (#[trigger] model.samples[k]).su
            <= u32::MAX && model.samples[k].sv <= u32::MAX && model.samples[k].pu < npu
            && model.samples[k].pv < npv by {
            patches::samples_lie_on_patches(
                npu as int,
                npv as int,
                segs as int,
                segs as int,
                def.u_wrap,
                def.v_wrap,
                k,
            );
        }
        assert(def.nu * 3 <= def@.points.len() && def.nv * 3 <= def@.points.len()) by (
            nonlinear_arith)
            requires
                def@.points.len() >= def.nu * def.nv * 3,
                def.nu >= 1,
                def.nv >= 1,
        ;
    }
    let have: usize = def.points.len();
    let n: usize = grid.samples.len();
    let mut positions: Vec<Single3> = Vec::new();
    let mut k: usize = 0;
    while k < n
        invariant
            k <= n == grid.samples@.len(),
            computes(*f),
            segs <= u32::MAX,
            npu <= u32::MAX,
            npv <= u32::MAX,
            def.nu >= 2,
            def.nv >= 2,
            npu <= def.nu,
            npv <= def.nv,
            have == def.points@.len(),
            def.nu * 3 <= have,
            def.nv * 3 <= have,
            patches::covers_grid(def@.points.len(), def.nu as nat, def.nv as nat, 3),
            forall|k: int|
                0 <= k < n ==> (#[trigger] grid.samples@[k]).su <= u32::MAX && grid.samples@[k].sv
                    <= u32::MAX && grid.samples@[k].pu < npu && grid.samples@[k].pv < npv,
            positions@.len() == k,
            forall|j: int|
                0 <= j < k ==> #[trigger] positions@[j] == bilinear_positions(
                    *f,
                    def@,
                    segs as int,
                    grid.samples@,
                )[j],
        decreases n - k,
    {
        let s: GridSample = grid.samples[k];
        let ctrl: Vec<Vec3> = find_controls(def, s.pu, s.pv, 2);
        let u: u64 = find_place(f, s.su, segs, s.pu);
        let v: u64 = find_place(f, s.sv, segs, s.pv);
        positions.push(narrow_triple(eval_bilinear(&ctrl, u, v, f)));
        k += 1;
    }
    assert(positions@ =~= bilinear_positions(*f, def@, segs as int, grid@.samples));
    Some(make_sheet(grid, positions, npu * segs, npv * segs, f))
}

} // verus!
