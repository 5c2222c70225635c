//! What the transforms of a stage come to: the matrices that its operations build, request by
//! request, and what undoes them in front of a camera.

use crate::arith;
use crate::arith::Op;
use crate::double;
use crate::math::matrix;
use crate::math::{Matrix4, Vec3, ONE, ZERO};
use crate::near;
use crate::parser::ast::ValueView;
use crate::parser::usd::convert;
use crate::parser::usd::convert::{DraftValueView, DraftView, Sum};
use crate::parser::usd::finish;
use crate::parser::usd::stage::UsdView;
use crate::rounding;
use crate::text;
use vstd::prelude::*;
use vstd::string::*;

verus! {

// ---- what drafts build -----------------------------------------------------

/// The number in value `i` of a draft.
pub open spec fn number_in(d: DraftView, i: int) -> Option<u64> {
    if 0 <= i < d.values.len() {
        match d.values[i] {
            DraftValueView::Ready(ValueView::Number(n)) => Some(n),
            _ => None,
        }
    } else {
        None
    }
}

/// What a draft multiplies the current matrix with, on the right; none where it is no transform.
pub open spec fn factor<F: Fn(Op, u64, u64) -> u64>(f: F, d: DraftView) -> Option<Matrix4> {
    match (number_in(d, 0), number_in(d, 1), number_in(d, 2)) {
        (Some(x), Some(y), Some(z)) => if d.name == "Translate"@ {
            Some(Matrix4::translate_of(x, y, z))
        } else if d.name == "Scale"@ {
            Some(Matrix4::scale_of(x, y, z))
        } else if d.name == "Rotate"@ {
            match number_in(d, 3) {
                Some(w) => Some(Matrix4::rotate_of(f, x, Vec3::of(y, z, w))),
                None => None,
            }
        } else {
            None
        },
        _ => None,
    }
}

/// The matrix that drafts build from another, each multiplied on the right.
pub open spec fn built<F: Fn(Op, u64, u64) -> u64>(f: F, m: Matrix4, drafts: Seq<DraftView>) -> Matrix4
    decreases drafts.len(),
{
    if drafts.len() == 0 {
        m
    } else {
        let before = built(f, m, drafts.drop_last());
        match factor(f, drafts.last()) {
            Some(n) => matrix::product_of(f, before, n),
            None => before,
        }
    }
}

/// A turn about the first, the second and the third axis.
pub open spec fn about_x<F: Fn(Op, u64, u64) -> u64>(f: F, angle: u64) -> Matrix4 {
    Matrix4::rotate_of(f, angle, Vec3::of(ONE, ZERO, ZERO))
}

pub open spec fn about_y<F: Fn(Op, u64, u64) -> u64>(f: F, angle: u64) -> Matrix4 {
    Matrix4::rotate_of(f, angle, Vec3::of(ZERO, ONE, ZERO))
}

pub open spec fn about_z<F: Fn(Op, u64, u64) -> u64>(f: F, angle: u64) -> Matrix4 {
    Matrix4::rotate_of(f, angle, Vec3::of(ZERO, ZERO, ONE))
}

/// The names of operations are told apart by their start.
proof fn names_differ(base: Seq<char>)
    ensures
        text::starts(base, "xformOp:rotateXYZ"@) ==> !text::starts(base, "xformOp:translate"@)
            && !text::starts(base, "xformOp:scale"@),
        text::starts(base, "xformOp:rotateX"@) ==> !text::starts(base, "xformOp:translate"@),
        text::starts(base, "xformOp:rotateY"@) ==> !text::starts(base, "xformOp:translate"@)
            && !text::starts(base, "xformOp:rotateX"@) && !text::starts(base, "xformOp:rotateXYZ"@),
        text::starts(base, "xformOp:rotateZ"@) ==> !text::starts(base, "xformOp:translate"@)
            && !text::starts(base, "xformOp:rotateX"@) && !text::starts(base, "xformOp:rotateY"@)
            && !text::starts(base, "xformOp:rotateXYZ"@),
        text::starts(base, "xformOp:scale"@) ==> !text::starts(base, "xformOp:translate"@)
            && !text::starts(base, "xformOp:rotateX"@) && !text::starts(base, "xformOp:rotateY"@)
            && !text::starts(base, "xformOp:rotateZ"@) && !text::starts(base, "xformOp:rotateXYZ"@),
{
    reveal_strlit("xformOp:translate");
    reveal_strlit("xformOp:rotateXYZ");
    reveal_strlit("xformOp:rotateX");
    reveal_strlit("xformOp:rotateY");
    reveal_strlit("xformOp:rotateZ");
    reveal_strlit("xformOp:scale");
    let (t, r, s) = ("xformOp:translate"@, "xformOp:rotateXYZ"@, "xformOp:scale"@);
    let (x, y, z) = ("xformOp:rotateX"@, "xformOp:rotateY"@, "xformOp:rotateZ"@);
    assert(t[8] == 't' && r[8] == 'r' && s[8] == 's');
    assert(x[8] == 'r' && y[8] == 'r' && z[8] == 'r');
    assert(r[14] == 'X' && x[14] == 'X' && y[14] == 'Y' && z[14] == 'Z');
    starts_tell(base, t, 8);
    starts_tell(base, r, 8);
    starts_tell(base, s, 8);
    starts_tell(base, x, 8);
    starts_tell(base, y, 8);
    starts_tell(base, z, 8);
    starts_tell(base, r, 14);
    starts_tell(base, x, 14);
    starts_tell(base, y, 14);
    starts_tell(base, z, 14);
}

proof fn starts_tell(base: Seq<char>, prefix: Seq<char>, i: int)
    requires
        0 <= i < prefix.len(),
    ensures
        text::starts(base, prefix) ==> i < base.len() && base[i] == prefix[i],
{
    if text::starts(base, prefix) {
        assert(base.subrange(0, prefix.len() as int)[i] == prefix[i]);
    }
}

/// The names of requests are told apart.
proof fn request_names_differ()
    ensures
        "Translate"@ != "Scale"@ && "Translate"@ != "Rotate"@ && "Scale"@ != "Rotate"@,
{
    reveal_strlit("Translate");
    reveal_strlit("Scale");
    reveal_strlit("Rotate");
    assert("Translate"@.len() == 9 && "Scale"@.len() == 5 && "Rotate"@.len() == 6);
}

proof fn one_built<F: Fn(Op, u64, u64) -> u64>(f: F, m: Matrix4, d: DraftView)
    ensures
        built(f, m, seq![d]) == match factor(f, d) {
            Some(n) => matrix::product_of(f, m, n),
            None => m,
        },
{
    assert(seq![d].drop_last() =~= seq![]);
    assert(built(f, m, seq![d].drop_last()) == m);
}

/// Drafts after drafts build upon what those built.
pub proof fn drafts_build_in_order<F: Fn(Op, u64, u64) -> u64>(
    f: F,
    m: Matrix4,
    a: Seq<DraftView>,
    b: Seq<DraftView>,
)
    ensures
        built(f, m, a + b) == built(f, built(f, m, a), b),
    decreases b.len(),
{
    if b.len() == 0 {
        assert(a + b =~= a);
    } else {
        drafts_build_in_order(f, m, a, b.drop_last());
        assert((a + b).drop_last() =~= a + b.drop_last());
        assert((a + b).last() == b.last());
    }
}

// ---- the laws of operations ------------------------------------------------

/// A turn about X, Y and Z takes a point about X first, then about Y, then about Z: its matrix is
/// that about Z, times that about Y, times that about X.
pub proof fn rotations_turn_about_x_first<F: Fn(Op, u64, u64) -> u64>(
    f: F,
    m: Matrix4,
    base: Seq<char>,
    v: Seq<u64>,
)
    requires
        text::starts(base, "xformOp:rotateXYZ"@),
        v.len() >= 3,
    ensures
        built(f, m, convert::op_out(base, v).drafts) == matrix::product_of(
            f,
            matrix::product_of(
                f,
                matrix::product_of(f, m, about_z(f, v[2])),
                about_y(f, v[1]),
            ),
            about_x(f, v[0]),
        ),
{
    names_differ(base);
    request_names_differ();
    let d = convert::op_out(base, v).drafts;
    assert(d.len() == 3);
    let two = d.drop_last();
    let one = two.drop_last();
    assert(one.drop_last().len() == 0);
    assert(built(f, m, one.drop_last()) == m);
    assert(factor(f, d[0]) == Some(about_z(f, v[2])));
    assert(factor(f, d[1]) == Some(about_y(f, v[1])));
    assert(factor(f, d[2]) == Some(about_x(f, v[0])));
    assert(one.last() == d[0] && two.last() == d[1] && d.last() == d[2]);
    assert(built(f, m, one) == matrix::product_of(f, m, about_z(f, v[2])));
    assert(built(f, m, two) == matrix::product_of(f, built(f, m, one), about_y(f, v[1])));
}

/// A turn about one axis is one about that axis.
pub proof fn single_rotations_turn_about_their_axis<F: Fn(Op, u64, u64) -> u64>(
    f: F,
    m: Matrix4,
    base: Seq<char>,
    v: Seq<u64>,
)
    requires
        v.len() >= 1,
        !text::starts(base, "xformOp:rotateXYZ"@),
    ensures
        text::starts(base, "xformOp:rotateX"@) ==> built(f, m, convert::op_out(base, v).drafts)
            == matrix::product_of(f, m, about_x(f, v[0])),
        text::starts(base, "xformOp:rotateY"@) ==> built(f, m, convert::op_out(base, v).drafts)
            == matrix::product_of(f, m, about_y(f, v[0])),
        text::starts(base, "xformOp:rotateZ"@) ==> built(f, m, convert::op_out(base, v).drafts)
            == matrix::product_of(f, m, about_z(f, v[0])),
{
    names_differ(base);
    request_names_differ();
    one_built(f, m, convert::rotation(v[0], ONE, ZERO, ZERO));
    one_built(f, m, convert::rotation(v[0], ZERO, ONE, ZERO));
    one_built(f, m, convert::rotation(v[0], ZERO, ZERO, ONE));
}

/// A translation moves by its numbers, and a scale stretches by them, along X, Y and Z in turn.
pub proof fn translations_move_and_scales_stretch<F: Fn(Op, u64, u64) -> u64>(
    f: F,
    m: Matrix4,
    base: Seq<char>,
    v: Seq<u64>,
)
    requires
        v.len() >= 3,
    ensures
        text::starts(base, "xformOp:translate"@) ==> built(f, m, convert::op_out(base, v).drafts)
            == matrix::product_of(f, m, Matrix4::translate_of(v[0], v[1], v[2])),
        text::starts(base, "xformOp:scale"@) ==> built(f, m, convert::op_out(base, v).drafts)
            == matrix::product_of(f, m, Matrix4::scale_of(v[0], v[1], v[2])),
{
    names_differ(base);
    request_names_differ();
    one_built(f, m, convert::three("Translate"@, v[0], v[1], v[2]));
    one_built(f, m, convert::three("Scale"@, v[0], v[1], v[2]));
}

/// The operations of a prim build one after the other, in the order that it gives: each applies to
/// a point before those in front of it.
pub proof fn operations_build_in_their_order<F: Fn(Op, u64, u64) -> u64>(
    f: F,
    m: Matrix4,
    ops: Seq<Seq<char>>,
    op: Seq<char>,
    attrs: Seq<(Seq<char>, UsdView)>,
    v: Seq<u64>,
)
    requires
        convert::attr_numbers(attrs, convert::without_bangs(op)) == Some(v),
    ensures
        built(f, m, convert::ops_out(ops.push(op), attrs).drafts) == built(
            f,
            built(f, m, convert::ops_out(ops, attrs).drafts),
            convert::op_out(convert::without_bangs(op), v).drafts,
        ),
{
    let all = ops.push(op);
    assert(all.drop_last() =~= ops);
    drafts_build_in_order(
        f,
        m,
        convert::ops_out(ops, attrs).drafts,
        convert::op_out(convert::without_bangs(op), v).drafts,
    );
}

// ---- undoing ---------------------------------------------------------------

/// Whether one number undoes another that is added.
pub open spec fn is_opposite(a: u64, b: u64) -> bool {
    near::exact(b) == -near::exact(a) && double::is_finite(b) == double::is_finite(a)
}

/// Whether a value of a draft asks for what undoes a factor: one over it, or over a billionth
/// with its sign where it is less.
pub open spec fn asks_inverse(u: DraftValueView, n: u64) -> bool {
    u matches DraftValueView::Number(Sum::Reciprocal(w)) && (w == n || double::below(
        double::magnitude(n),
        convert::BILLIONTH,
    ))
}

/// Whether one transform request undoes another: a move by the opposite, a turn about the same
/// axis by the opposite angle, a scale by one over each factor.
pub open spec fn undoes(d: DraftView, u: DraftView) -> bool {
    &&& d.name == u.name && d.values.len() == u.values.len()
    &&& match (number_in(d, 0), number_in(d, 1), number_in(d, 2)) {
        (Some(x), Some(y), Some(z)) => if d.name == "Translate"@ {
            &&& number_in(u, 0) matches Some(a) && is_opposite(x, a)
            &&& number_in(u, 1) matches Some(b) && is_opposite(y, b)
            &&& number_in(u, 2) matches Some(c) && is_opposite(z, c)
        } else if d.name == "Rotate"@ {
            &&& number_in(u, 0) matches Some(a) && is_opposite(x, a)
            &&& number_in(u, 1) == Some(y) && number_in(u, 2) == Some(z)
            &&& number_in(u, 3) == number_in(d, 3) && number_in(d, 3) is Some
        } else {
            &&& d.name == "Scale"@ && u.values.len() == 3
            &&& asks_inverse(u.values[0], x) && asks_inverse(u.values[1], y) && asks_inverse(
                u.values[2],
                z,
            )
        },
        _ => false,
    }
}

/// Whether drafts undo others: each the one at the same distance from the other end.
pub open spec fn cancel(drafts: Seq<DraftView>, undo: Seq<DraftView>) -> bool {
    &&& drafts.len() == undo.len()
    &&& forall|i: int|
        0 <= i < drafts.len() ==> undoes(drafts[drafts.len() - 1 - i], #[trigger] undo[i])
}

/// Whether an operation is one that a camera undoes.
pub open spec fn is_undone(op: Seq<char>, v: Seq<u64>) -> bool {
    v.len() >= 3 && (text::starts(op, "xformOp:translate"@) || text::starts(
        op,
        "xformOp:rotateXYZ"@,
    ) || text::starts(op, "xformOp:scale"@))
}

/// What a camera does with an operation undoes it, request by request from the last to the first.
pub proof fn cameras_undo_operations(op: Seq<char>, v: Seq<u64>)
    requires
        is_undone(op, v),
    ensures
        cancel(convert::op_out(op, v).drafts, convert::undo_out(op, v)),
{
    names_differ(op);
    request_names_differ();
    rounding::negation_is_exact(v[0]);
    rounding::negation_is_exact(v[1]);
    rounding::negation_is_exact(v[2]);
    let (d, u) = (convert::op_out(op, v).drafts, convert::undo_out(op, v));
    if text::starts(op, "xformOp:translate"@) {
        assert(undoes(d[0], u[0]));
    } else if text::starts(op, "xformOp:rotateXYZ"@) {
        assert(undoes(d[2], u[0]));
        assert(undoes(d[1], u[1]));
        assert(undoes(d[0], u[2]));
    } else {
        assert(undoes(d[0], u[0]));
    }
}

/// Whether the operations of a prim are all of those that a camera undoes, with their numbers.
pub open spec fn all_undone(ops: Seq<Seq<char>>, attrs: Seq<(Seq<char>, UsdView)>) -> bool {
    forall|i: int|
        0 <= i < ops.len() ==> convert::without_bangs(#[trigger] ops[i]) == ops[i]
            && (convert::attr_numbers(attrs, ops[i]) matches Some(v) && is_undone(ops[i], v))
}

proof fn longer_cancels(
    a: Seq<DraftView>,
    b: Seq<DraftView>,
    c: Seq<DraftView>,
    d: Seq<DraftView>,
)
    requires
        cancel(a, b),
        cancel(c, d),
    ensures
        cancel(a + c, d + b),
{
    let (x, y) = (a + c, d + b);
    assert forall|i: int| 0 <= i < x.len() implies undoes(x[x.len() - 1 - i], #[trigger] y[i]) by {
        if i < d.len() {
            assert(y[i] == d[i]);
            assert(x[x.len() - 1 - i] == c[c.len() - 1 - i]);
        } else {
            assert(y[i] == b[i - d.len()]);
            assert(x[x.len() - 1 - i] == a[a.len() - 1 - (i - d.len())]);
        }
    }
}

proof fn undos_in_front(op: Seq<char>, ops: Seq<Seq<char>>, attrs: Seq<(Seq<char>, UsdView)>)
    ensures
        convert::undos_out(seq![op] + ops, attrs) == convert::undos_out(seq![op], attrs)
            + convert::undos_out(ops, attrs),
    decreases ops.len(),
{
    if ops.len() == 0 {
        assert(seq![op] + ops =~= seq![op]);
        assert(convert::undos_out(seq![op], attrs) + Seq::<DraftView>::empty()
            =~= convert::undos_out(seq![op], attrs));
    } else {
        let all = seq![op] + ops;
        undos_in_front(op, ops.drop_last(), attrs);
        assert(all.drop_last() =~= seq![op] + ops.drop_last());
        assert(all.last() == ops.last());
        let last = match convert::attr_numbers(attrs, ops.last()) {
            Some(v) => convert::undo_out(ops.last(), v),
            None => seq![],
        };
        let (a, b) = (convert::undos_out(seq![op], attrs), convert::undos_out(ops.drop_last(), attrs));
        assert((a + b) + last =~= a + (b + last));
    }
}

/// What a camera does with the operations of a prim undoes them all: those that the prim gives
/// first are undone last.
pub proof fn cameras_undo_prims(ops: Seq<Seq<char>>, attrs: Seq<(Seq<char>, UsdView)>)
    requires
        all_undone(ops, attrs),
    ensures
        cancel(
            convert::ops_out(ops, attrs).drafts,
            convert::undos_out(ops.reverse(), attrs),
        ),
    decreases ops.len(),
{
    if ops.len() == 0 {
        assert(ops.reverse() =~= seq![]);
    } else {
        let before = ops.drop_last();
        let op = ops.last();
        assert forall|i: int| 0 <= i < before.len() implies convert::without_bangs(
            #[trigger] before[i],
        ) == before[i] && (convert::attr_numbers(attrs, before[i]) matches Some(v) && is_undone(
            before[i],
            v,
        )) by {
            assert(before[i] == ops[i]);
        }
        cameras_undo_prims(before, attrs);
        assert(ops[ops.len() - 1] == op);
        let v = convert::attr_numbers(attrs, op)->0;
        cameras_undo_operations(op, v);
        assert(ops.reverse() =~= seq![op] + before.reverse());
        undos_in_front(op, before.reverse(), attrs);
        assert(seq![op].drop_last() =~= seq![]);
        assert(convert::undos_out(seq![op].drop_last(), attrs) =~= seq![]);
        assert(convert::undos_out(seq![op], attrs) =~= convert::undo_out(op, v));
        longer_cancels(
            convert::ops_out(before, attrs).drafts,
            convert::undos_out(before.reverse(), attrs),
            convert::op_out(op, v).drafts,
            convert::undo_out(op, v),
        );
    }
}

/// A prim that gives no order has its operations undone in the opposite one.
pub proof fn orders_are_opposite(attrs: Seq<(Seq<char>, UsdView)>)
    ensures
        convert::undo_order(attrs) == convert::op_order(attrs).reverse(),
{
    assert(convert::undo_order(attrs) =~= convert::op_order(attrs).reverse());
}

/// One over a number is that, rounded: what is asked for undoes the factor.
pub proof fn inverses_are_inverse<F: Fn(Op, u64, u64) -> u64>(f: F, v: u64)
    requires
        rounding::is_rounding(f),
        double::is_finite(v),
        near::exact(v) > 0,
    ensures
        rounding::rounds_to(
            finish::worked_out(f, Sum::Reciprocal(v)),
            rounding::whole() * rounding::whole(),
            near::exact(v),
        ),
{
    reveal(rounding::is_rounding);
    rounding::nought_and_one();
}

/// A light without exposure is as strong as its intensity, and one with exposure that times two to
/// the exposure.
pub proof fn exposure_doubles<F: Fn(Op, u64, u64) -> u64>(f: F, i: u64, e: u64)
    requires
        rounding::is_rounding(f),
        double::is_finite(i),
        double::is_finite(arith::value(f, Op::RealPower, convert::TWO, e)),
    ensures
        near::exact(finish::worked_out(f, Sum::Power { intensity: i, exposure: None })) == near::exact(i),
        rounding::rounds_to(
            finish::worked_out(f, Sum::Power { intensity: i, exposure: Some(e) }),
            near::exact(i) * near::exact(arith::value(f, Op::RealPower, convert::TWO, e)),
            rounding::whole(),
        ),
{
    rounding::nought_and_one();
    rounding::product_with_one(f, i, ONE);
    reveal(rounding::is_rounding);
}

} // verus!
