//! What the prims of a stage come to: lights with their strength and colour, surfaces, shapes and
//! the view of the camera.

use crate::arith;
use crate::arith::Op;
use crate::double;
use crate::math::matrix;
use crate::math::matrix_laws;
use crate::math::{Vec3, HALF, ONE, ZERO};
use crate::near;
use crate::parser::ast::ValueView;
use crate::parser::usd::convert;
use crate::parser::usd::convert::{DraftValueView, DraftView, Sum};
use crate::parser::usd::finish;
use crate::parser::usd::op_laws;
use crate::parser::usd::stage::{PrimView, StageView, UsdView};
use crate::rounding;
use vstd::arithmetic::power2::*;
use vstd::prelude::*;
use vstd::string::*;

verus! {

// ---- parameters of drafts --------------------------------------------------

/// Whether a draft says something of a parameter: behind the first two values stand names, each in
/// front of what it names.
pub open spec fn says(values: Seq<DraftValueView>, name: Seq<char>, v: DraftValueView) -> bool {
    exists|i: int|
        1 <= i && 2 * i + 1 < values.len() && #[trigger] values[2 * i] == DraftValueView::Ready(
            ValueView::Text(name),
        ) && values[2 * i + 1] == v
}

/// Whether a draft says nothing of a parameter.
pub open spec fn is_silent(values: Seq<DraftValueView>, name: Seq<char>) -> bool {
    forall|i: int|
        1 <= i && 2 * i < values.len() ==> #[trigger] values[2 * i] != DraftValueView::Ready(
            ValueView::Text(name),
        )
}

/// Numbers, as a draft has them.
pub open spec fn array(v: Seq<u64>) -> DraftValueView {
    DraftValueView::Ready(ValueView::Numbers(v))
}

/// What is said at a place is said.
proof fn said_at(values: Seq<DraftValueView>, i: int, name: Seq<char>, v: DraftValueView)
    requires
        1 <= i && 2 * i + 1 < values.len(),
        values[2 * i] == DraftValueView::Ready(ValueView::Text(name)),
        values[2 * i + 1] == v,
    ensures
        says(values, name, v),
{
}

// ---- lights ----------------------------------------------------------------

/// Whether a draft is that of a light: of a kind, with the name of the prim, as strong as the prim
/// says, or one, and of its colour, or white.
pub open spec fn is_light(p: PrimView, d: DraftView, kind: Seq<char>) -> bool {
    let strength = match convert::attr_number(p.attrs, "inputs:intensity"@) {
        Some(n) => n,
        None => ONE,
    };
    let color = match convert::attr_numbers(p.attrs, "inputs:color"@) {
        Some(c) => c,
        None => seq![ONE, ONE, ONE],
    };
    &&& d.name == "Light"@
    &&& d.values.len() >= 2
    &&& d.values[0] == DraftValueView::Ready(ValueView::Text(kind))
    &&& d.values[1] == DraftValueView::Ready(ValueView::Text(p.name))
    &&& says(
        d.values,
        "intensity"@,
        DraftValueView::Numbers(
            Sum::Power {
                intensity: strength,
                exposure: convert::attr_number(p.attrs, "inputs:exposure"@),
            },
        ),
    )
    &&& says(d.values, "lightColor"@, array(color))
}

/// Whether a draft passes a number of a prim on, under another name.
pub open spec fn passes_on(p: PrimView, d: DraftView, from: Seq<char>, to: Seq<char>) -> bool {
    convert::attr_number(p.attrs, from) matches Some(n) ==> says(d.values, to, array(seq![n]))
}

proof fn lights_say(p: PrimView, kind: Seq<char>, more: Seq<DraftValueView>)
    ensures
        ({
            let out = convert::light_of(p, kind, more);
            &&& out.drafts.len() == 1
            &&& is_light(p, out.drafts[0], kind)
            &&& out.drafts[0].values.len() == 6 + more.len()
            &&& forall|i: int|
                0 <= i < more.len() ==> out.drafts[0].values[i + 6] == #[trigger] more[i]
        }),
{
    let d = convert::light_of(p, kind, more).drafts[0];
    let color = match convert::attr_numbers(p.attrs, "inputs:color"@) {
        Some(c) => c,
        None => seq![ONE, ONE, ONE],
    };
    said_at(d.values, 1, "intensity"@, d.values[3]);
    said_at(d.values, 2, "lightColor"@, array(color));
}

/// The names of the kinds of lights differ.
proof fn kinds_differ()
    ensures
        "DistantLight"@ != "DomeLight"@,
        "DistantLight"@ != "SphereLight"@,
        "DistantLight"@ != "RectLight"@,
        "DomeLight"@ != "SphereLight"@,
        "DomeLight"@ != "RectLight"@,
        "SphereLight"@ != "RectLight"@,
{
    reveal_strlit("DistantLight");
    reveal_strlit("DomeLight");
    reveal_strlit("SphereLight");
    reveal_strlit("RectLight");
    assert("DistantLight"@.len() == 12 && "DomeLight"@.len() == 9 && "SphereLight"@.len() == 11);
    assert("RectLight"@.len() == 9 && "RectLight"@[0] == 'R' && "DomeLight"@[0] == 'D');
}

/// The lights of a stage stay lights of their kind, each with its name, its strength and its
/// colour, and with its angle, radius, width and height where it has them.
pub proof fn lights_are_carried_over(p: PrimView)
    ensures
        p.kind == "DistantLight"@ || p.kind == "DomeLight"@ || p.kind == "SphereLight"@ || p.kind
            == "RectLight"@ ==> convert::light_out(p).drafts.len() == 1,
        p.kind == "DistantLight"@ ==> ({
            let d = convert::light_out(p).drafts[0];
            is_light(p, d, "PxrDistantLight"@) && passes_on(p, d, "inputs:angle"@, "angleExtent"@)
        }),
        p.kind == "DomeLight"@ ==> ({
            let d = convert::light_out(p).drafts[0];
            is_light(p, d, "PxrDomeLight"@) && (convert::attr(p.attrs, "inputs:texture:file"@) matches Some(
                UsdView::Asset(file),
            ) ==> says(d.values, "lightColorMap"@, DraftValueView::Ready(ValueView::Text(file))))
        }),
        p.kind == "SphereLight"@ ==> ({
            let d = convert::light_out(p).drafts[0];
            is_light(p, d, "PxrSphereLight"@) && passes_on(p, d, "inputs:radius"@, "radius"@)
        }),
        p.kind == "RectLight"@ ==> ({
            let d = convert::light_out(p).drafts[0];
            is_light(p, d, "PxrRectLight"@) && passes_on(p, d, "inputs:width"@, "width"@)
                && passes_on(p, d, "inputs:height"@, "height"@)
        }),
{
    kinds_differ();
    let out = convert::light_out(p);
    if p.kind == "DistantLight"@ {
        let more = convert::carried(p.attrs, "inputs:angle"@, "angleExtent"@);
        lights_say(p, "PxrDistantLight"@, more);
        if let Some(n) = convert::attr_number(p.attrs, "inputs:angle"@) {
            assert(out.drafts[0].values[6] == more[0] && out.drafts[0].values[7] == more[1]);
            said_at(out.drafts[0].values, 3, "angleExtent"@, array(seq![n]));
        }
    } else if p.kind == "DomeLight"@ {
        let more = match convert::attr(p.attrs, "inputs:texture:file"@) {
            Some(UsdView::Asset(file)) => seq![
                convert::word("lightColorMap"@),
                convert::word(file),
            ],
            _ => seq![],
        };
        lights_say(p, "PxrDomeLight"@, more);
        if let Some(UsdView::Asset(file)) = convert::attr(p.attrs, "inputs:texture:file"@) {
            assert(out.drafts[0].values[6] == more[0] && out.drafts[0].values[7] == more[1]);
            said_at(
                out.drafts[0].values,
                3,
                "lightColorMap"@,
                DraftValueView::Ready(ValueView::Text(file)),
            );
        }
    } else if p.kind == "SphereLight"@ {
        let more = convert::carried(p.attrs, "inputs:radius"@, "radius"@);
        lights_say(p, "PxrSphereLight"@, more);
        if let Some(n) = convert::attr_number(p.attrs, "inputs:radius"@) {
            assert(out.drafts[0].values[6] == more[0] && out.drafts[0].values[7] == more[1]);
            said_at(out.drafts[0].values, 3, "radius"@, array(seq![n]));
        }
    } else if p.kind == "RectLight"@ {
        let wide = convert::carried(p.attrs, "inputs:width"@, "width"@);
        let high = convert::carried(p.attrs, "inputs:height"@, "height"@);
        let more = wide + high;
        lights_say(p, "PxrRectLight"@, more);
        let values = out.drafts[0].values;
        if let Some(n) = convert::attr_number(p.attrs, "inputs:width"@) {
            assert(values[6] == more[0] && values[7] == more[1]);
            said_at(values, 3, "width"@, array(seq![n]));
            if let Some(h) = convert::attr_number(p.attrs, "inputs:height"@) {
                assert(values[8] == more[2] && values[9] == more[3]);
                said_at(values, 4, "height"@, array(seq![h]));
            }
        } else if let Some(h) = convert::attr_number(p.attrs, "inputs:height"@) {
            assert(values[6] == more[0] && values[7] == more[1]);
            said_at(values, 3, "height"@, array(seq![h]));
        }
    }
}

// ---- surfaces --------------------------------------------------------------

/// A surface that is no metal scatters its diffuse colour, with its index of refraction; a metal
/// scatters none, and has the colour in its reflection. Either is as rough as it says, but not
/// smoother than the least; it glows with its emission, and is as present as it is opaque.
pub proof fn surfaces_are_carried_over(attrs: Seq<(Seq<char>, UsdView)>, color: Seq<u64>, metal: u64)
    requires
        convert::attr_numbers(attrs, "inputs:diffuseColor"@) == Some(color),
        convert::attr_number(attrs, "inputs:metallic"@) == Some(metal),
    ensures
        ({
            let values = convert::surface_values(attrs);
            &&& double::below(HALF, metal) ==> says(values, "diffuseGain"@, array(seq![ZERO]))
                && says(values, "specularFaceColor"@, array(color))
            &&& !double::below(HALF, metal) ==> says(
                values,
                "diffuseGain"@,
                array(seq![ONE]),
            ) && says(values, "diffuseColor"@, array(color)) && (convert::attr_number(
                attrs,
                "inputs:ior"@,
            ) matches Some(n) ==> says(values, "specularIor"@, array(seq![n])))
            &&& convert::attr_number(attrs, "inputs:roughness"@) matches Some(r) ==> (!double::below(
                r,
                convert::LEAST_ROUGHNESS,
            ) && !double::is_nan(r) ==> says(values, "specularRoughness"@, array(seq![r])))
            &&& convert::attr_numbers(attrs, "inputs:emissiveColor"@) matches Some(e) ==> ((exists|i: int|
                0 <= i < e.len() && double::below(ZERO, #[trigger] e[i])) ==> says(
                values,
                "glowColor"@,
                array(e),
            ) && says(values, "glowGain"@, array(seq![ONE])))
            &&& convert::attr_number(attrs, "inputs:opacity"@) matches Some(o) ==> (double::below(o, ONE)
                ==> says(values, "presence"@, array(seq![o])))
        }),
{
    let values = convert::surface_values(attrs);
    let n: int = if double::below(HALF, metal) {
        said_at(values, 1, "diffuseGain"@, array(seq![ZERO]));
        said_at(values, 2, "specularFaceColor"@, array(color));
        3
    } else {
        said_at(values, 1, "diffuseGain"@, array(seq![ONE]));
        said_at(values, 2, "diffuseColor"@, array(color));
        said_at(values, 3, "specularIor"@, values[7]);
        4
    };
    said_at(values, n, "specularRoughness"@, values[2 * n + 1]);
    let emissive = convert::numbers_or(
        convert::attr_numbers(attrs, "inputs:emissiveColor"@),
        seq![ZERO, ZERO, ZERO],
    );
    let m: int = if convert::any_positive(emissive) {
        said_at(values, n + 1, "glowGain"@, array(seq![ONE]));
        said_at(values, n + 2, "glowColor"@, array(emissive));
        n + 3
    } else {
        n + 1
    };
    if let Some(o) = convert::attr_number(attrs, "inputs:opacity"@) {
        if double::below(o, ONE) {
            said_at(values, m, "presence"@, array(seq![o]));
        }
    }
}

// ---- shapes ----------------------------------------------------------------

/// A sphere of a stage is whole: as far down as up, by its radius, and all round.
pub proof fn spheres_are_whole(p: PrimView, r: u64)
    requires
        p.kind == "Sphere"@,
        convert::attr_number(p.attrs, "radius"@) == Some(r),
    ensures
        ({
            let out = convert::geometry_out(p);
            let d = out.drafts[0];
            &&& out.drafts.len() == 1 && d.name == "Sphere"@ && d.values.len() == 4
            &&& op_laws::number_in(d, 0) == Some(r)
            &&& op_laws::number_in(d, 2) == Some(r)
            &&& op_laws::number_in(d, 1) matches Some(z) && near::exact(z) == -near::exact(r)
            &&& op_laws::number_in(d, 3) matches Some(a) && matrix_laws::is_count(a, 360)
        }),
{
    reveal_strlit("Sphere");
    reveal_strlit("Mesh");
    assert("Sphere"@.len() == 6 && "Mesh"@.len() == 4);
    rounding::negation_is_exact(r);
    full_circle();
}

/// A full circle is three hundred and sixty degrees.
pub proof fn full_circle()
    ensures
        matrix_laws::is_count(convert::FULL_CIRCLE, 360),
{
    lemma2_to64();
    lemma2_to64_rest();
    let b = convert::FULL_CIRCLE;
    assert(double::exponent_field(b) == 1031);
    assert(double::significand(b) == 0x16_8000_0000_0000);
    lemma_pow2_adds(44, 1030);
    assert(double::scale_exponent(b) + 1074 == 1030);
    let p = pow2(1030) as int;
    assert(0x16_8000_0000_0000 * p == 360 * (0x1000_0000_0000 * p)) by (nonlinear_arith);
}

/// Coordinate `a` of corner `k` of a list of points.
pub open spec fn at_corner(points: Seq<u64>, k: int, a: int) -> int {
    near::exact(points[3 * k + a])
}

/// Which way a turn from one corner by two others faces: across both, seen from the middle.
pub open spec fn facing(points: Seq<u64>, k: int, l: int, m: int) -> int {
    let (ax, ay, az) = (at_corner(points, k, 0), at_corner(points, k, 1), at_corner(points, k, 2));
    let (bx, by, bz) = (at_corner(points, l, 0), at_corner(points, l, 1), at_corner(points, l, 2));
    let (cx, cy, cz) = (at_corner(points, m, 0), at_corner(points, m, 1), at_corner(points, m, 2));
    ax * (by * cz - bz * cy) + ay * (bz * cx - bx * cz) + az * (bx * cy - by * cx)
}

/// The corner that a number names.
pub open spec fn corner(b: u64) -> int {
    if matrix_laws::is_count(b, 0) {
        0
    } else if matrix_laws::is_count(b, 1) {
        1
    } else if matrix_laws::is_count(b, 2) {
        2
    } else if matrix_laws::is_count(b, 3) {
        3
    } else if matrix_laws::is_count(b, 4) {
        4
    } else if matrix_laws::is_count(b, 5) {
        5
    } else if matrix_laws::is_count(b, 6) {
        6
    } else {
        7
    }
}

/// The corners of a cube lie as far from the middle as half its size, along each axis; and each of
/// its six faces is flat, and turns so that it faces outwards.
pub proof fn cubes_face_outwards(p: PrimView, size: u64, face: int)
    requires
        p.kind == "Cube"@,
        convert::attr_number(p.attrs, "size"@) == Some(size),
        double::is_finite(double::halved(size)),
        near::exact(double::halved(size)) > 0,
        0 <= face < 6,
    ensures
        ({
            let out = convert::geometry_out(p);
            let s = near::exact(double::halved(size));
            &&& out.drafts.len() == 1 && out.drafts[0].name == "PointsPolygons"@
            &&& out.drafts[0].values.len() == 4
            &&& out.drafts[0].values[2] == DraftValueView::Ready(ValueView::Text("P"@))
            &&& out.drafts[0].values[1] matches DraftValueView::Ready(ValueView::Numbers(indices))
                && out.drafts[0].values[3] matches DraftValueView::Ready(ValueView::Numbers(points)) && {
                let c = |i: int| corner(indices[4 * face + i]);
                &&& indices.len() == 24 && points.len() == 24
                &&& forall|i: int| 0 <= i < 24 ==> near::gap(near::exact(#[trigger] points[i]), 0) == s
                &&& facing(points, c(0), c(1), c(2)) > 0
                &&& facing(points, c(1), c(2), c(3)) > 0
                &&& facing(points, c(2), c(3), c(0)) > 0
                &&& facing(points, c(3), c(0), c(1)) > 0
                &&& exists|a: int|
                    0 <= a < 3 && at_corner(points, c(0), a) == at_corner(points, c(1), a)
                        && at_corner(points, c(1), a) == at_corner(points, c(2), a)
                        && #[trigger] at_corner(points, c(2), a) == at_corner(points, c(3), a)
            }
        }),
{
    reveal_strlit("Sphere");
    reveal_strlit("Mesh");
    reveal_strlit("Cube");
    assert("Sphere"@.len() == 6 && "Mesh"@.len() == 4 && "Cube"@.len() == 4);
    assert("Mesh"@[0] == 'M' && "Cube"@[0] == 'C');
    let h = double::halved(size);
    rounding::negation_is_exact(h);
    let points = convert::cube_points(h);
    let indices = convert::cube_indices();
    let s = near::exact(h);
    corners_are_named();
    corners_are_signed(h);
    let c = |i: int| corner(indices[4 * face + i]);
    assert(s * (s * s) > 0) by (nonlinear_arith)
        requires
            s > 0,
    ;
    let (a, b, d, e) = (c(0), c(1), c(2), c(3));
    assert forall|i: int| 0 <= i < 24 implies near::gap(near::exact(#[trigger] points[i]), 0) == s by {
        assert(points[i] == h || points[i] == double::negated(h));
    }
    if face == 0 {
        assert(a == 0 && b == 3 && d == 2 && e == 1);
        faces_out(points, s, 0, (-1, -1, -1), 3, (-1, 1, -1), 2, (1, 1, -1));
        faces_out(points, s, 3, (-1, 1, -1), 2, (1, 1, -1), 1, (1, -1, -1));
        faces_out(points, s, 2, (1, 1, -1), 1, (1, -1, -1), 0, (-1, -1, -1));
        faces_out(points, s, 1, (1, -1, -1), 0, (-1, -1, -1), 3, (-1, 1, -1));
        assert(at_corner(points, d, 2) == -s && at_corner(points, e, 2) == -s);
    } else if face == 1 {
        assert(a == 4 && b == 5 && d == 6 && e == 7);
        faces_out(points, s, 4, (-1, -1, 1), 5, (1, -1, 1), 6, (1, 1, 1));
        faces_out(points, s, 5, (1, -1, 1), 6, (1, 1, 1), 7, (-1, 1, 1));
        faces_out(points, s, 6, (1, 1, 1), 7, (-1, 1, 1), 4, (-1, -1, 1));
        faces_out(points, s, 7, (-1, 1, 1), 4, (-1, -1, 1), 5, (1, -1, 1));
        assert(at_corner(points, d, 2) == s && at_corner(points, e, 2) == s);
    } else if face == 2 {
        assert(a == 0 && b == 1 && d == 5 && e == 4);
        faces_out(points, s, 0, (-1, -1, -1), 1, (1, -1, -1), 5, (1, -1, 1));
        faces_out(points, s, 1, (1, -1, -1), 5, (1, -1, 1), 4, (-1, -1, 1));
        faces_out(points, s, 5, (1, -1, 1), 4, (-1, -1, 1), 0, (-1, -1, -1));
        faces_out(points, s, 4, (-1, -1, 1), 0, (-1, -1, -1), 1, (1, -1, -1));
        assert(at_corner(points, d, 1) == -s && at_corner(points, e, 1) == -s);
    } else if face == 3 {
        assert(a == 2 && b == 3 && d == 7 && e == 6);
        faces_out(points, s, 2, (1, 1, -1), 3, (-1, 1, -1), 7, (-1, 1, 1));
        faces_out(points, s, 3, (-1, 1, -1), 7, (-1, 1, 1), 6, (1, 1, 1));
        faces_out(points, s, 7, (-1, 1, 1), 6, (1, 1, 1), 2, (1, 1, -1));
        faces_out(points, s, 6, (1, 1, 1), 2, (1, 1, -1), 3, (-1, 1, -1));
        assert(at_corner(points, d, 1) == s && at_corner(points, e, 1) == s);
    } else if face == 4 {
        assert(a == 1 && b == 2 && d == 6 && e == 5);
        faces_out(points, s, 1, (1, -1, -1), 2, (1, 1, -1), 6, (1, 1, 1));
        faces_out(points, s, 2, (1, 1, -1), 6, (1, 1, 1), 5, (1, -1, 1));
        faces_out(points, s, 6, (1, 1, 1), 5, (1, -1, 1), 1, (1, -1, -1));
        faces_out(points, s, 5, (1, -1, 1), 1, (1, -1, -1), 2, (1, 1, -1));
        assert(at_corner(points, d, 0) == s && at_corner(points, e, 0) == s);
    } else {
        assert(a == 0 && b == 4 && d == 7 && e == 3);
        faces_out(points, s, 0, (-1, -1, -1), 4, (-1, -1, 1), 7, (-1, 1, 1));
        faces_out(points, s, 4, (-1, -1, 1), 7, (-1, 1, 1), 3, (-1, 1, -1));
        faces_out(points, s, 7, (-1, 1, 1), 3, (-1, 1, -1), 0, (-1, -1, -1));
        faces_out(points, s, 3, (-1, 1, -1), 0, (-1, -1, -1), 4, (-1, -1, 1));
        assert(at_corner(points, d, 0) == -s && at_corner(points, e, 0) == -s);
    }
}

/// A product with a difference of products, of numbers that differ in their signs only.
proof fn three_signs(p: int, q: int, r: int, t: int, u: int, s: int)
    ensures
        (p * s) * ((q * s) * (r * s) - (t * s) * (u * s)) == (p * (q * r - t * u)) * (s * (s * s)),
{
    assert((q * s) * (r * s) == (q * r) * (s * s)) by (nonlinear_arith);
    assert((t * s) * (u * s) == (t * u) * (s * s)) by (nonlinear_arith);
    let (a, b, w) = (q * r, t * u, s * s);
    assert(a * w - b * w == (a - b) * w) by (nonlinear_arith);
    let d = a - b;
    assert((p * s) * (d * w) == (p * d) * (s * w)) by (nonlinear_arith);
}

/// Whether a corner lies at half the size along each axis, with these signs.
spec fn is_signed(points: Seq<u64>, s: int, k: int, sign: (int, int, int)) -> bool {
    &&& at_corner(points, k, 0) == sign.0 * s
    &&& at_corner(points, k, 1) == sign.1 * s
    &&& at_corner(points, k, 2) == sign.2 * s
}

/// The corners of a cube, by their signs.
proof fn corners_are_signed(h: u64)
    requires
        near::exact(double::negated(h)) == -near::exact(h),
    ensures
        is_signed(convert::cube_points(h), near::exact(h), 0, (-1, -1, -1)),
        is_signed(convert::cube_points(h), near::exact(h), 1, (1, -1, -1)),
        is_signed(convert::cube_points(h), near::exact(h), 2, (1, 1, -1)),
        is_signed(convert::cube_points(h), near::exact(h), 3, (-1, 1, -1)),
        is_signed(convert::cube_points(h), near::exact(h), 4, (-1, -1, 1)),
        is_signed(convert::cube_points(h), near::exact(h), 5, (1, -1, 1)),
        is_signed(convert::cube_points(h), near::exact(h), 6, (1, 1, 1)),
        is_signed(convert::cube_points(h), near::exact(h), 7, (-1, 1, 1)),
{
    let p = convert::cube_points(h);
    let n = double::negated(h);
    assert(p[0] == n && at_corner(p, 0, 0) == near::exact(p[0]));
    assert(p[1] == n && at_corner(p, 0, 1) == near::exact(p[1]));
    assert(p[2] == n && at_corner(p, 0, 2) == near::exact(p[2]));
    assert(p[3] == h && at_corner(p, 1, 0) == near::exact(p[3]));
    assert(p[4] == n && at_corner(p, 1, 1) == near::exact(p[4]));
    assert(p[5] == n && at_corner(p, 1, 2) == near::exact(p[5]));
    assert(p[6] == h && at_corner(p, 2, 0) == near::exact(p[6]));
    assert(p[7] == h && at_corner(p, 2, 1) == near::exact(p[7]));
    assert(p[8] == n && at_corner(p, 2, 2) == near::exact(p[8]));
    assert(p[9] == n && at_corner(p, 3, 0) == near::exact(p[9]));
    assert(p[10] == h && at_corner(p, 3, 1) == near::exact(p[10]));
    assert(p[11] == n && at_corner(p, 3, 2) == near::exact(p[11]));
    assert(p[12] == n && at_corner(p, 4, 0) == near::exact(p[12]));
    assert(p[13] == n && at_corner(p, 4, 1) == near::exact(p[13]));
    assert(p[14] == h && at_corner(p, 4, 2) == near::exact(p[14]));
    assert(p[15] == h && at_corner(p, 5, 0) == near::exact(p[15]));
    assert(p[16] == n && at_corner(p, 5, 1) == near::exact(p[16]));
    assert(p[17] == h && at_corner(p, 5, 2) == near::exact(p[17]));
    assert(p[18] == h && at_corner(p, 6, 0) == near::exact(p[18]));
    assert(p[19] == h && at_corner(p, 6, 1) == near::exact(p[19]));
    assert(p[20] == h && at_corner(p, 6, 2) == near::exact(p[20]));
    assert(p[21] == n && at_corner(p, 7, 0) == near::exact(p[21]));
    assert(p[22] == h && at_corner(p, 7, 1) == near::exact(p[22]));
    assert(p[23] == h && at_corner(p, 7, 2) == near::exact(p[23]));
    let s = near::exact(h);
    assert(1 * s == s && (-1) * s == -s);
}

/// Three corners whose signs turn to the right side face outwards.
proof fn faces_out(
    points: Seq<u64>,
    s: int,
    k: int,
    p: (int, int, int),
    l: int,
    q: (int, int, int),
    m: int,
    r: (int, int, int),
)
    requires
        s > 0,
        is_signed(points, s, k, p) && is_signed(points, s, l, q) && is_signed(points, s, m, r),
        p.0 * (q.1 * r.2 - q.2 * r.1) + p.1 * (q.2 * r.0 - q.0 * r.2) + p.2 * (q.0 * r.1 - q.1 * r.0)
            > 0,
    ensures
        facing(points, k, l, m) > 0,
{
    let (px, py, pz) = p;
    let (qx, qy, qz) = q;
    let (rx, ry, rz) = r;
    let t = px * (qy * rz - qz * ry) + py * (qz * rx - qx * rz) + pz * (qx * ry - qy * rx);
    three_signs(px, qy, rz, qz, ry, s);
    three_signs(py, qz, rx, qx, rz, s);
    three_signs(pz, qx, ry, qy, rx, s);
    let (d, e, g) = (px * (qy * rz - qz * ry), py * (qz * rx - qx * rz), pz * (qx * ry - qy * rx));
    let v = s * (s * s);
    assert((d + e + g) * v == d * v + e * v + g * v) by (nonlinear_arith);
    assert(t * (s * (s * s)) > 0) by (nonlinear_arith)
        requires
            t > 0,
            s > 0,
    ;
}

/// The numbers of the corners of a cube.
proof fn corners_are_named()
    ensures
        corner(ZERO) == 0,
        corner(ONE) == 1,
        corner(convert::TWO) == 2,
        corner(convert::THREE) == 3,
        corner(convert::FOUR) == 4,
        corner(convert::FIVE) == 5,
        corner(convert::SIX) == 6,
        corner(convert::SEVEN) == 7,
{
    matrix_laws::small_counts();
    small_number(convert::TWO, 1024, 0x10_0000_0000_0000, 2);
    small_number(convert::THREE, 1024, 0x18_0000_0000_0000, 3);
    small_number(convert::FOUR, 1025, 0x10_0000_0000_0000, 4);
    small_number(convert::FIVE, 1025, 0x14_0000_0000_0000, 5);
    small_number(convert::SIX, 1025, 0x18_0000_0000_0000, 6);
    small_number(convert::SEVEN, 1025, 0x1c_0000_0000_0000, 7);
    tells(ZERO, 0);
    tells(ONE, 1);
    tells(convert::TWO, 2);
    tells(convert::THREE, 3);
    tells(convert::FOUR, 4);
    tells(convert::FIVE, 5);
    tells(convert::SIX, 6);
}

proof fn tells(b: u64, k: int)
    requires
        matrix_laws::is_count(b, k),
    ensures
        forall|j: int| #[trigger] matrix_laws::is_count(b, j) ==> j == k,
{
    assert forall|j: int| #[trigger] matrix_laws::is_count(b, j) implies j == k by {
        matrix_laws::counts_tell(b, j, k);
    }
}

/// A number of at most three bits.
proof fn small_number(b: u64, exponent: nat, bits: nat, k: int)
    requires
        double::is_finite(b),
        !double::is_negative(b),
        double::exponent_field(b) == exponent,
        double::significand(b) == bits,
        exponent == 1024 || exponent == 1025,
        exponent == 1024 ==> bits == k * 0x8_0000_0000_0000,
        exponent == 1025 ==> bits == k * 0x4_0000_0000_0000,
    ensures
        matrix_laws::is_count(b, k),
{
    lemma2_to64_rest();
    if exponent == 1024 {
        lemma_pow2_adds(51, 1023);
        let p = pow2(1023) as int;
        assert((k * 0x8_0000_0000_0000) * p == k * (0x8_0000_0000_0000 * p)) by (nonlinear_arith);
    } else {
        lemma_pow2_adds(50, 1024);
        let p = pow2(1024) as int;
        assert((k * 0x4_0000_0000_0000) * p == k * (0x4_0000_0000_0000 * p)) by (nonlinear_arith);
    }
}

// ---- the view --------------------------------------------------------------

/// In front of all that a stage places, its view is flipped along z; and where its z axis points
/// up, it is turned about x last, backwards by a quarter.
pub proof fn views_are_flipped_and_turned<F: Fn(Op, u64, u64) -> u64>(f: F, s: StageView)
    ensures
        ({
            let v = convert::view_of(s);
            let up = convert::attr(s.meta, "upAxis"@) == Some(UsdView::Text("Z"@));
            &&& v.len() >= 2
            &&& v[0].name == "Projection"@
            &&& v[1].name == "Scale"@ && op_laws::number_in(v[1], 0) == Some(ONE)
                && op_laws::number_in(v[1], 1) == Some(ONE)
            &&& op_laws::number_in(v[1], 2) matches Some(z) && near::exact(z) == -near::exact(ONE)
            &&& up ==> v.last().name == "Rotate"@ && (op_laws::number_in(v.last(), 0) matches Some(a)
                && matrix_laws::is_count(a, -90)) && op_laws::number_in(v.last(), 1) == Some(ONE)
                && op_laws::number_in(v.last(), 2) == Some(ZERO) && op_laws::number_in(v.last(), 3)
                == Some(ZERO)
        }),
{
    assert(convert::MINUS_ONE == double::negated(ONE));
    rounding::negation_is_exact(ONE);
    quarter_back();
}

proof fn quarter_back()
    ensures
        matrix_laws::is_count(convert::QUARTER_BACK, -90),
{
    lemma2_to64();
    lemma2_to64_rest();
    let b = convert::QUARTER_BACK;
    assert(double::exponent_field(b) == 1029);
    assert(double::significand(b) == 0x16_8000_0000_0000);
    lemma_pow2_adds(46, 1028);
    let p = pow2(1028) as int;
    assert(0x16_8000_0000_0000 * p == 90 * (0x4000_0000_0000 * p)) by (nonlinear_arith);
    let w = pow2(1074) as int;
    assert(-(90 * w) == (-90) * w) by (nonlinear_arith);
}

/// A turn about the x axis by an angle whose sine is less one, and whose cosine is nothing, takes
/// what points up along z to what points up along y.
pub proof fn z_turns_up<F: Fn(Op, u64, u64) -> u64>(f: F, sin: u64, cos: u64)
    requires
        rounding::is_rounding(f),
        matrix_laws::is_count(sin, -1),
        matrix_laws::is_count(cos, 0),
    ensures
        ({
            let x = Vec3::of(ONE, ZERO, ZERO);
            let v = matrix::vector_of(
                f,
                matrix::turned_about(f, sin, cos, x),
                Vec3::of(ZERO, ZERO, ONE),
            );
            matrix_laws::is_count(v.x, 0) && matrix_laws::is_count(v.y, 1) && matrix_laws::is_count(
                v.z,
                0,
            )
        }),
{
    matrix_laws::small_counts();
    matrix_laws::turns_keep_what_is_along(
        f,
        sin,
        -1,
        cos,
        0,
        Vec3::of(ONE, ZERO, ZERO),
        1,
        0,
        0,
        Vec3::of(ZERO, ZERO, ONE),
        0,
        0,
        1,
    );
}

/// The lens of a stage is that of its first camera.
pub proof fn stages_are_seen_by_their_camera(prims: Seq<PrimView>, c: int, focal: u64, aperture: u64)
    requires
        convert::camera_from(prims, 0) == Some(c),
        convert::attr_number(prims[c].attrs, "focalLength"@) == Some(focal),
        convert::attr_number(prims[c].attrs, "horizontalAperture"@) == Some(aperture),
    ensures
        ({
            let d = convert::projection_of(prims);
            &&& d.name == "Projection"@
            &&& d.values[0] == DraftValueView::Ready(ValueView::Text("perspective"@))
            &&& says(
                seq![d.values[0]] + d.values,
                "fov"@,
                DraftValueView::Numbers(Sum::FieldOfView { focal, aperture }),
            )
        }),
{
    let d = convert::projection_of(prims);
    said_at(seq![d.values[0]] + d.values, 1, "fov"@, d.values[2]);
}

/// Whether a number is half an aperture over a focal length, rounded.
pub open spec fn is_half(half: u64, focal: u64, aperture: u64) -> bool {
    rounding::rounds_to(half, near::exact(aperture) * rounding::whole(), 2 * near::exact(focal))
}

/// A lens sees twice the angle whose tangent is half its aperture over its focal length.
pub proof fn lenses_see_both_sides<F: Fn(Op, u64, u64) -> u64>(f: F, focal: u64, aperture: u64, k: int)
    requires
        rounding::is_rounding(f),
        double::is_finite(aperture),
        matrix_laws::is_count(focal, k),
        0 < k <= 0x1_0000_0000,
    ensures
        exists|half: u64| #[trigger]
            is_half(half, focal, aperture) && finish::worked_out(
                f,
                Sum::FieldOfView { focal, aperture },
            ) == arith::product(
                f,
                convert::TWO,
                arith::product(f, arith::value(f, Op::ArcTangent, half, ZERO), finish::DEGREES),
            ),
{
    small_number(convert::TWO, 1024, 0x10_0000_0000_0000, 2);
    matrix_laws::times_counts(f, convert::TWO, 2, focal, k, 2, 0x1_0000_0000);
    let d = arith::product(f, convert::TWO, focal);
    let half = arith::quotient(f, aperture, d);
    lemma_pow2_pos(1074);
    let w = pow2(1074) as int;
    assert((2 * k) * w == 2 * (k * w) && k * w > 0) by (nonlinear_arith)
        requires
            k > 0,
            w > 0,
    ;
    reveal(rounding::is_rounding);
    assert(is_half(half, focal, aperture));
}

} // verus!
