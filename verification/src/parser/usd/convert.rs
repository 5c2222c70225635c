//! From the prims of a stage to RIB requests.
//!
//! A request is drafted with its numbers as they stand in the stage. The few numbers
//! that take a product, a quotient or a trigonometric function are left as questions;
//! their answers are put in when the drafts are settled.

use crate::double;
use crate::math::{HALF, ONE, ZERO};
use crate::parser::ast;
use crate::parser::ast::{RequestView, RibRequest, RibValue, ValueView};
use crate::parser::requests::to_vector;
use crate::parser::usd::stage;
use crate::parser::usd::stage::{
    parse_stage, Prim, PrimView, Stage, StageView, UsdError, UsdErrorView, UsdValue, UsdView,
    UsdWarning, WarningView,
};
use crate::text;
use crate::text::{same_text, starts_with};
use vstd::prelude::*;
use vstd::string::*;

verus! {

/// Diffuse colour of a surface that gives none.
pub const GREY: u64 = 0x3fc7_0a3d_70a3_d70a;

/// Index of refraction of a surface that gives none.
pub const DEFAULT_IOR: u64 = 0x3ff8_0000_0000_0000;

/// Least roughness.
pub const LEAST_ROUGHNESS: u64 = 0x3f94_7ae1_47ae_147b;

/// Focal length and horizontal aperture of a camera that gives none.
pub const DEFAULT_FOCAL: u64 = 0x4049_0000_0000_0000;

pub const DEFAULT_APERTURE: u64 = 0x4034_f47a_e147_ae14;

/// Field of view where there is no camera.
pub const DEFAULT_FOV: u64 = 0x4046_8000_0000_0000;

pub const MINUS_ONE: u64 = 0xbff0_0000_0000_0000;

/// A quarter turn backwards.
pub const QUARTER_BACK: u64 = 0xc056_8000_0000_0000;

pub const FULL_CIRCLE: u64 = 0x4076_8000_0000_0000;

pub const TWO: u64 = 0x4000_0000_0000_0000;

pub const THREE: u64 = 0x4008_0000_0000_0000;

pub const FOUR: u64 = 0x4010_0000_0000_0000;

pub const FIVE: u64 = 0x4014_0000_0000_0000;

pub const SIX: u64 = 0x4018_0000_0000_0000;

pub const SEVEN: u64 = 0x401c_0000_0000_0000;

/// 1e-9 and -1e-9.
pub const BILLIONTH: u64 = 0x3e11_2e0b_e826_d695;

pub const MINUS_BILLIONTH: u64 = 0xbe11_2e0b_e826_d695;

/// A scale that can be undone: one that is nearer to zero than a billionth counts as a
/// billionth, with its sign.
pub open spec fn kept_away(v: u64) -> u64 {
    if !double::below(double::magnitude(v), BILLIONTH) {
        v
    } else if double::below(v, 0) {
        MINUS_BILLIONTH
    } else {
        BILLIONTH
    }
}

fn keep_away(v: u64) -> (r: u64)
    ensures
        r == kept_away(v),
{
    if !double::less(double::absolute(v), BILLIONTH) {
        v
    } else if double::less(v, 0) {
        MINUS_BILLIONTH
    } else {
        BILLIONTH
    }
}

/// A number that a request needs and the stage only implies.
#[derive(Clone, Copy, Debug, PartialEq, Eq, Structural)]
pub enum Sum {
    /// The horizontal angle of a lens, in degrees.
    FieldOfView { focal: u64, aperture: u64 },
    /// One over the value, which is not zero.
    Reciprocal(u64),
    /// The intensity of a light, times two to the power of the exposure if it has one.
    Power { intensity: u64, exposure: Option<u64> },
}

/// A value of a drafted request.
#[derive(Debug)]
pub enum DraftValue {
    Ready(RibValue),
    /// A single number.
    Number(Sum),
    /// An array of one number.
    Numbers(Sum),
}

/// A drafted request.
#[derive(Debug)]
pub struct Draft {
    pub name: String,
    pub values: Vec<DraftValue>,
}

/// What a value of a draft is.
pub enum DraftValueView {
    Ready(ValueView),
    Number(Sum),
    Numbers(Sum),
}

/// What a draft is.
pub struct DraftView {
    pub name: Seq<char>,
    pub values: Seq<DraftValueView>,
}

impl View for DraftValue {
    type V = DraftValueView;

    open spec fn view(&self) -> DraftValueView {
        match *self {
            DraftValue::Ready(v) => DraftValueView::Ready(v@),
            DraftValue::Number(s) => DraftValueView::Number(s),
            DraftValue::Numbers(s) => DraftValueView::Numbers(s),
        }
    }
}

pub open spec fn draft_value_views(v: Seq<DraftValue>) -> Seq<DraftValueView> {
    v.map_values(|x: DraftValue| x@)
}

impl View for Draft {
    type V = DraftView;

    open spec fn view(&self) -> DraftView {
        DraftView { name: self.name@, values: draft_value_views(self.values@) }
    }
}

pub open spec fn draft_views(v: Seq<Draft>) -> Seq<DraftView> {
    v.map_values(|x: Draft| x@)
}

/// What the prims of a stage become, and what is not carried over.
pub struct OutView {
    pub drafts: Seq<DraftView>,
    pub warnings: Seq<WarningView>,
}

pub open spec fn joined(a: OutView, b: OutView) -> OutView {
    OutView { drafts: a.drafts + b.drafts, warnings: a.warnings + b.warnings }
}

pub open spec fn nothing() -> OutView {
    OutView { drafts: seq![], warnings: seq![] }
}

/// Only these drafts.
pub open spec fn only(drafts: Seq<DraftView>) -> OutView {
    OutView { drafts, warnings: seq![] }
}

// ---- what a stage becomes --------------------------------------------------

pub open spec fn number(n: u64) -> DraftValueView {
    DraftValueView::Ready(ValueView::Number(n))
}

pub open spec fn numbers(v: Seq<u64>) -> DraftValueView {
    DraftValueView::Ready(ValueView::Numbers(v))
}

pub open spec fn word(s: Seq<char>) -> DraftValueView {
    DraftValueView::Ready(ValueView::Text(s))
}

/// A request with three numbers.
pub open spec fn three(name: Seq<char>, x: u64, y: u64, z: u64) -> DraftView {
    DraftView { name, values: seq![number(x), number(y), number(z)] }
}

/// A rotation about an axis.
pub open spec fn rotation(angle: u64, x: u64, y: u64, z: u64) -> DraftView {
    DraftView {
        name: "Rotate"@,
        values: seq![number(angle), number(x), number(y), number(z)],
    }
}

/// A request without values.
pub open spec fn bare(name: Seq<char>) -> DraftView {
    DraftView { name, values: seq![] }
}

/// The value of an attribute: the last that was given.
pub open spec fn attr(attrs: Seq<(Seq<char>, UsdView)>, name: Seq<char>) -> Option<UsdView>
    decreases attrs.len(),
{
    if attrs.len() == 0 {
        None
    } else if attrs.last().0 == name {
        Some(attrs.last().1)
    } else {
        attr(attrs.drop_last(), name)
    }
}

/// The numbers of an attribute.
pub open spec fn attr_numbers(attrs: Seq<(Seq<char>, UsdView)>, name: Seq<char>) -> Option<
    Seq<u64>,
> {
    match attr(attrs, name) {
        Some(UsdView::Numbers(v)) => Some(v),
        _ => None,
    }
}

/// The first number of an attribute.
pub open spec fn attr_number(attrs: Seq<(Seq<char>, UsdView)>, name: Seq<char>) -> Option<u64> {
    match attr_numbers(attrs, name) {
        Some(v) => if v.len() > 0 {
            Some(v[0])
        } else {
            None
        },
        None => None,
    }
}

pub open spec fn number_or(n: Option<u64>, default: u64) -> u64 {
    match n {
        Some(n) => n,
        None => default,
    }
}

pub open spec fn numbers_or(v: Option<Seq<u64>>, default: Seq<u64>) -> Seq<u64> {
    match v {
        Some(v) => v,
        None => default,
    }
}

/// The name alone, if there is an attribute of that name.
pub open spec fn if_given(attrs: Seq<(Seq<char>, UsdView)>, name: Seq<char>) -> Seq<Seq<char>> {
    if attr(attrs, name) is Some {
        seq![name]
    } else {
        seq![]
    }
}

/// The transform operations of a prim, in the order in which they apply: as it gives
/// it, or translation, rotation and scale where it gives none.
pub open spec fn op_order(attrs: Seq<(Seq<char>, UsdView)>) -> Seq<Seq<char>> {
    match attr(attrs, "xformOpOrder"@) {
        Some(UsdView::Tokens(t)) => t,
        _ => if_given(attrs, "xformOp:translate"@) + if_given(attrs, "xformOp:rotateXYZ"@)
            + if_given(attrs, "xformOp:scale"@),
    }
}

/// The text without the exclamation marks at its start.
pub open spec fn without_bangs(s: Seq<char>) -> Seq<char>
    decreases s.len(),
{
    if s.len() > 0 && s[0] == '!' {
        without_bangs(s.drop_first())
    } else {
        s
    }
}

/// One operation with its numbers. The last rotation given applies first, so one
/// about X, Y and Z in turn is given as Z, Y, X.
pub open spec fn op_out(base: Seq<char>, v: Seq<u64>) -> OutView {
    if text::starts(base, "xformOp:translate"@) && v.len() >= 3 {
        only(seq![three("Translate"@, v[0], v[1], v[2])])
    } else if text::starts(base, "xformOp:rotateXYZ"@) && v.len() >= 3 {
        only(
            seq![
                rotation(v[2], ZERO, ZERO, ONE),
                rotation(v[1], ZERO, ONE, ZERO),
                rotation(v[0], ONE, ZERO, ZERO),
            ],
        )
    } else if text::starts(base, "xformOp:rotateX"@) && v.len() >= 1 {
        only(seq![rotation(v[0], ONE, ZERO, ZERO)])
    } else if text::starts(base, "xformOp:rotateY"@) && v.len() >= 1 {
        only(seq![rotation(v[0], ZERO, ONE, ZERO)])
    } else if text::starts(base, "xformOp:rotateZ"@) && v.len() >= 1 {
        only(seq![rotation(v[0], ZERO, ZERO, ONE)])
    } else if text::starts(base, "xformOp:scale"@) && v.len() >= 3 {
        only(seq![three("Scale"@, v[0], v[1], v[2])])
    } else if text::starts(base, "xformOp:transform"@) && v.len() >= 16 {
        only(seq![DraftView { name: "ConcatTransform"@, values: seq![numbers(v)] }])
    } else {
        OutView { drafts: seq![], warnings: seq![WarningView::UnsupportedOp(base)] }
    }
}

/// What these operations become, in their order. One without numbers is left out.
pub open spec fn ops_out(ops: Seq<Seq<char>>, attrs: Seq<(Seq<char>, UsdView)>) -> OutView
    decreases ops.len(),
{
    if ops.len() == 0 {
        nothing()
    } else {
        let base = without_bangs(ops.last());
        joined(
            ops_out(ops.drop_last(), attrs),
            match attr_numbers(attrs, base) {
                Some(v) => op_out(base, v),
                None => nothing(),
            },
        )
    }
}

/// The first prim of that name among those next to each other in `[from, to)`.
pub open spec fn sibling_named(prims: Seq<PrimView>, from: int, to: int, name: Seq<char>) -> Option<
    int,
>
    decreases to - from,
{
    if !(0 <= from < to <= prims.len()) || prims[from].size < 1 || from + prims[from].size > to {
        None
    } else if prims[from].name == name {
        Some(from)
    } else {
        sibling_named(prims, from + prims[from].size, to, name)
    }
}

/// Where the first `/` stands from `p` on, or the end.
pub open spec fn slash(path: Seq<char>, p: int) -> int
    decreases path.len() - p,
{
    if 0 <= p < path.len() && path[p] != '/' {
        slash(path, p + 1)
    } else {
        p
    }
}

/// The prim that the path from `p` on names, among those in `[from, to)`.
pub open spec fn prim_on_path(
    prims: Seq<PrimView>,
    from: int,
    to: int,
    path: Seq<char>,
    p: int,
) -> Option<int>
    decreases path.len() - p,
{
    proof {
        slash_bounds(path, p);
    }
    let e = slash(path, p);
    match sibling_named(prims, from, to, path.subrange(p, e)) {
        None => None,
        Some(i) => if 0 <= p && e < path.len() {
            prim_on_path(prims, i + 1, i + prims[i].size, path, e + 1)
        } else {
            Some(i)
        },
    }
}

pub proof fn slash_bounds(path: Seq<char>, p: int)
    ensures
        p <= slash(path, p),
        p <= path.len() ==> slash(path, p) <= path.len(),
    decreases path.len() - p,
{
    if 0 <= p < path.len() && path[p] != '/' {
        slash_bounds(path, p + 1);
    }
}

/// The first position from `p` on that holds no `/`, or the end.
pub open spec fn past_slashes(path: Seq<char>, p: int) -> int
    decreases path.len() - p,
{
    if 0 <= p < path.len() && path[p] == '/' {
        past_slashes(path, p + 1)
    } else {
        p
    }
}

/// The prim with an absolute path like `/World/Materials/Red`.
pub open spec fn find_prim(prims: Seq<PrimView>, path: Seq<char>) -> Option<int> {
    prim_on_path(prims, 0, prims.len() as int, path, past_slashes(path, 0))
}

/// Whether a prim is a preview surface shader.
pub open spec fn is_surface(p: PrimView) -> bool {
    attr(p.attrs, "info:id"@) matches Some(v) && v == UsdView::Text("UsdPreviewSurface"@)
}

/// The first preview surface among the prims next to each other in `[from, to)`.
pub open spec fn sibling_surface(prims: Seq<PrimView>, from: int, to: int) -> Option<int>
    decreases to - from,
{
    if !(0 <= from < to <= prims.len()) || prims[from].size < 1 || from + prims[from].size > to {
        None
    } else if is_surface(prims[from]) {
        Some(from)
    } else {
        sibling_surface(prims, from + prims[from].size, to)
    }
}

/// The preview surface that is bound to a prim: the child of the material that the
/// first path names.
pub open spec fn bound_surface(prims: Seq<PrimView>, attrs: Seq<(Seq<char>, UsdView)>) -> Option<
    int,
> {
    match attr(attrs, "material:binding"@) {
        Some(UsdView::Paths(p)) => if p.len() > 0 {
            match find_prim(prims, p[0]) {
                Some(m) => sibling_surface(prims, m + 1, m + prims[m].size),
                None => None,
            }
        } else {
            None
        },
        _ => None,
    }
}

/// A parameter with an array of numbers.
pub open spec fn param(name: Seq<char>, v: Seq<u64>) -> Seq<DraftValueView> {
    seq![word(name), numbers(v)]
}

/// Whether any of the numbers is above zero.
pub open spec fn any_positive(v: Seq<u64>) -> bool {
    exists|i: int| 0 <= i < v.len() && double::below(ZERO, #[trigger] v[i])
}

/// The parameters of a surface. A metal takes its base colour into its specular face
/// colour.
pub open spec fn surface_values(attrs: Seq<(Seq<char>, UsdView)>) -> Seq<DraftValueView> {
    let diffuse = numbers_or(attr_numbers(attrs, "inputs:diffuseColor"@), seq![GREY, GREY, GREY]);
    let roughness = number_or(attr_number(attrs, "inputs:roughness"@), HALF);
    let metallic = number_or(attr_number(attrs, "inputs:metallic"@), ZERO);
    let ior = number_or(attr_number(attrs, "inputs:ior"@), DEFAULT_IOR);
    let emissive = numbers_or(attr_numbers(attrs, "inputs:emissiveColor"@), seq![ZERO, ZERO, ZERO]);
    let opacity = number_or(attr_number(attrs, "inputs:opacity"@), ONE);
    let base = if double::below(HALF, metallic) {
        param("diffuseGain"@, seq![ZERO]) + param("specularFaceColor"@, diffuse)
    } else {
        param("diffuseGain"@, seq![ONE]) + param("diffuseColor"@, diffuse) + param(
            "specularIor"@,
            seq![ior],
        )
    };
    let glow = if any_positive(emissive) {
        param("glowGain"@, seq![ONE]) + param("glowColor"@, emissive)
    } else {
        seq![]
    };
    let presence = if double::below(opacity, ONE) {
        param("presence"@, seq![opacity])
    } else {
        seq![]
    };
    seq![word("PxrSurface"@), word("usd"@)] + base + param(
        "specularRoughness"@,
        seq![double::greater(roughness, LEAST_ROUGHNESS)],
    ) + glow + presence
}

/// The material of a prim.
pub open spec fn material_out(prims: Seq<PrimView>, attrs: Seq<(Seq<char>, UsdView)>) -> OutView {
    match bound_surface(prims, attrs) {
        Some(i) => only(
            seq![DraftView { name: "Bxdf"@, values: surface_values(prims[i].attrs) }],
        ),
        None => nothing(),
    }
}

/// A light of that kind with these further values.
pub open spec fn light_of(p: PrimView, kind: Seq<char>, more: Seq<DraftValueView>) -> OutView {
    let power = Sum::Power {
        intensity: number_or(attr_number(p.attrs, "inputs:intensity"@), ONE),
        exposure: attr_number(p.attrs, "inputs:exposure"@),
    };
    let color = numbers_or(attr_numbers(p.attrs, "inputs:color"@), seq![ONE, ONE, ONE]);
    only(
        seq![
            DraftView {
                name: "Light"@,
                values: seq![
                    word(kind),
                    word(p.name),
                    word("intensity"@),
                    DraftValueView::Numbers(power),
                    word("lightColor"@),
                    numbers(color),
                ] + more,
            },
        ],
    )
}

/// A parameter that carries the first number of an attribute, if it is given.
pub open spec fn carried(
    attrs: Seq<(Seq<char>, UsdView)>,
    name: Seq<char>,
    as_name: Seq<char>,
) -> Seq<DraftValueView> {
    match attr_number(attrs, name) {
        Some(n) => param(as_name, seq![n]),
        None => seq![],
    }
}

/// The light that a prim is, if it is one.
pub open spec fn light_out(p: PrimView) -> OutView {
    if p.kind == "DistantLight"@ {
        light_of(p, "PxrDistantLight"@, carried(p.attrs, "inputs:angle"@, "angleExtent"@))
    } else if p.kind == "DomeLight"@ {
        light_of(
            p,
            "PxrDomeLight"@,
            match attr(p.attrs, "inputs:texture:file"@) {
                Some(UsdView::Asset(file)) => seq![word("lightColorMap"@), word(file)],
                _ => seq![],
            },
        )
    } else if p.kind == "SphereLight"@ {
        light_of(p, "PxrSphereLight"@, carried(p.attrs, "inputs:radius"@, "radius"@))
    } else if p.kind == "RectLight"@ {
        light_of(
            p,
            "PxrRectLight"@,
            carried(p.attrs, "inputs:width"@, "width"@) + carried(
                p.attrs,
                "inputs:height"@,
                "height"@,
            ),
        )
    } else {
        nothing()
    }
}

/// A mesh with counts, indices and points; normals and texture coordinates only where
/// there is one for each point.
pub open spec fn mesh_draft(
    attrs: Seq<(Seq<char>, UsdView)>,
    counts: Seq<u64>,
    indices: Seq<u64>,
    points: Seq<u64>,
) -> DraftView {
    let normals = match attr_numbers(attrs, "normals"@) {
        Some(n) if n.len() == points.len() => param("N"@, n),
        _ => seq![],
    };
    let st = match attr_numbers(attrs, "primvars:st"@) {
        Some(v) if v.len() * 3 == points.len() * 2 => param("st"@, v),
        _ => seq![],
    };
    DraftView {
        name: "PointsPolygons"@,
        values: seq![numbers(counts), numbers(indices), word("P"@), numbers(points)] + normals
            + st,
    }
}

/// The corner indices of the faces of a cube.
pub open spec fn cube_indices() -> Seq<u64> {
    seq![
        ZERO, THREE, TWO, ONE, FOUR, FIVE, SIX, SEVEN, ZERO, ONE, FIVE, FOUR, TWO, THREE, SEVEN,
        SIX, ONE, TWO, SIX, FIVE, ZERO, FOUR, SEVEN, THREE,
    ]
}

/// The corners of a cube that reaches to `s` from the middle.
pub open spec fn cube_points(s: u64) -> Seq<u64> {
    let n = double::negated(s);
    seq![n, n, n, s, n, n, s, s, n, n, s, n, n, n, s, s, n, s, s, s, s, n, s, s]
}

/// The geometry that a prim is, if it is any.
pub open spec fn geometry_out(p: PrimView) -> OutView {
    if p.kind == "Mesh"@ {
        match (
            attr_numbers(p.attrs, "faceVertexCounts"@),
            attr_numbers(p.attrs, "faceVertexIndices"@),
            attr_numbers(p.attrs, "points"@),
        ) {
            (Some(counts), Some(indices), Some(points)) => only(
                seq![mesh_draft(p.attrs, counts, indices, points)],
            ),
            _ => OutView { drafts: seq![], warnings: seq![WarningView::NoTopology(p.name)] },
        }
    } else if p.kind == "Sphere"@ {
        let r = number_or(attr_number(p.attrs, "radius"@), ONE);
        only(
            seq![
                DraftView {
                    name: "Sphere"@,
                    values: seq![
                        number(r),
                        number(double::negated(r)),
                        number(r),
                        number(FULL_CIRCLE),
                    ],
                },
            ],
        )
    } else if p.kind == "Cube"@ {
        let s = double::halved(number_or(attr_number(p.attrs, "size"@), TWO));
        only(
            seq![
                DraftView {
                    name: "PointsPolygons"@,
                    values: seq![
                        numbers(seq![FOUR, FOUR, FOUR, FOUR, FOUR, FOUR]),
                        numbers(cube_indices()),
                        word("P"@),
                        numbers(cube_points(s)),
                    ],
                },
            ],
        )
    } else {
        nothing()
    }
}

/// Kinds of prims that give nothing to the world where they stand, with all below.
pub open spec fn is_passed_over(kind: Seq<char>) -> bool {
    kind == "Camera"@ || kind == "Material"@ || kind == "Shader"@
}

/// What the prim itself gives, in front of those below it.
pub open spec fn own_out(prims: Seq<PrimView>, i: int) -> OutView {
    let p = prims[i];
    joined(
        joined(joined(ops_out(op_order(p.attrs), p.attrs), material_out(prims, p.attrs)), light_out(p)),
        geometry_out(p),
    )
}

/// What the prims in `[from, to)` become: each an attribute block around what it
/// gives itself and what those below it become.
pub open spec fn walk_out(prims: Seq<PrimView>, from: int, to: int) -> OutView
    decreases to - from,
{
    if !(0 <= from < to <= prims.len()) || prims[from].size < 1 || from + prims[from].size > to {
        nothing()
    } else {
        let end = from + prims[from].size;
        let own = if is_passed_over(prims[from].kind) {
            nothing()
        } else {
            joined(
                joined(
                    joined(only(seq![bare("AttributeBegin"@)]), own_out(prims, from)),
                    walk_out(prims, from + 1, end),
                ),
                only(seq![bare("AttributeEnd"@)]),
            )
        };
        joined(own, walk_out(prims, end, to))
    }
}

/// The first camera from `i` on.
pub open spec fn camera_from(prims: Seq<PrimView>, i: int) -> Option<int>
    decreases prims.len() - i,
{
    if !(0 <= i < prims.len()) {
        None
    } else if prims[i].kind == "Camera"@ {
        Some(i)
    } else {
        camera_from(prims, i + 1)
    }
}

/// The transform operations of a prim, last first.
pub open spec fn undo_order(attrs: Seq<(Seq<char>, UsdView)>) -> Seq<Seq<char>> {
    match attr(attrs, "xformOpOrder"@) {
        Some(UsdView::Tokens(t)) => t.reverse(),
        _ => if_given(attrs, "xformOp:scale"@) + if_given(attrs, "xformOp:rotateXYZ"@) + if_given(
            attrs,
            "xformOp:translate"@,
        ),
    }
}

/// What undoes one operation.
pub open spec fn undo_out(op: Seq<char>, v: Seq<u64>) -> Seq<DraftView> {
    if text::starts(op, "xformOp:translate"@) && v.len() >= 3 {
        seq![
            three("Translate"@, double::negated(v[0]), double::negated(v[1]), double::negated(v[2])),
        ]
    } else if text::starts(op, "xformOp:rotateXYZ"@) && v.len() >= 3 {
        seq![
            rotation(double::negated(v[0]), ONE, ZERO, ZERO),
            rotation(double::negated(v[1]), ZERO, ONE, ZERO),
            rotation(double::negated(v[2]), ZERO, ZERO, ONE),
        ]
    } else if text::starts(op, "xformOp:scale"@) && v.len() >= 3 {
        seq![
            DraftView {
                name: "Scale"@,
                values: seq![
                    DraftValueView::Number(Sum::Reciprocal(kept_away(v[0]))),
                    DraftValueView::Number(Sum::Reciprocal(kept_away(v[1]))),
                    DraftValueView::Number(Sum::Reciprocal(kept_away(v[2]))),
                ],
            },
        ]
    } else {
        seq![]
    }
}

/// What undoes these operations, in their order.
pub open spec fn undos_out(ops: Seq<Seq<char>>, attrs: Seq<(Seq<char>, UsdView)>) -> Seq<DraftView>
    decreases ops.len(),
{
    if ops.len() == 0 {
        seq![]
    } else {
        undos_out(ops.drop_last(), attrs) + match attr_numbers(attrs, ops.last()) {
            Some(v) => undo_out(ops.last(), v),
            None => seq![],
        }
    }
}

/// What undoes the transforms of prim `c` and of those above it, from `a` up to the
/// root.
pub open spec fn chain_out(prims: Seq<PrimView>, c: int, a: int) -> Seq<DraftView>
    decreases a + 1,
{
    if !(0 <= a < prims.len()) {
        seq![]
    } else {
        let own = if c < a + prims[a].size {
            undos_out(undo_order(prims[a].attrs), prims[a].attrs)
        } else {
            seq![]
        };
        own + chain_out(prims, c, a - 1)
    }
}

/// The field of view.
pub open spec fn projection_of(prims: Seq<PrimView>) -> DraftView {
    let fov = match camera_from(prims, 0) {
        Some(c) => DraftValueView::Numbers(
            Sum::FieldOfView {
                focal: number_or(attr_number(prims[c].attrs, "focalLength"@), DEFAULT_FOCAL),
                aperture: number_or(
                    attr_number(prims[c].attrs, "horizontalAperture"@),
                    DEFAULT_APERTURE,
                ),
            },
        ),
        None => numbers(seq![DEFAULT_FOV]),
    };
    DraftView { name: "Projection"@, values: seq![word("perspective"@), word("fov"@), fov] }
}

/// The stage looks along +z after a flip and after the camera's transforms are undone;
/// a stage with Z up is turned so that +Z becomes +Y.
pub open spec fn view_of(s: StageView) -> Seq<DraftView> {
    let camera = match camera_from(s.prims, 0) {
        Some(c) => chain_out(s.prims, c, c),
        None => seq![],
    };
    let turn = if attr(s.meta, "upAxis"@) == Some(UsdView::Text("Z"@)) {
        seq![rotation(QUARTER_BACK, ONE, ZERO, ZERO)]
    } else {
        seq![]
    };
    seq![projection_of(s.prims), three("Scale"@, ONE, ONE, MINUS_ONE)] + camera + turn
}

/// The requests that a stage becomes, and all that is not carried over.
pub open spec fn stage_out(s: StageView) -> OutView {
    let world = walk_out(s.prims, 0, s.prims.len() as int);
    OutView {
        drafts: view_of(s) + seq![bare("WorldBegin"@)] + world.drafts + seq![bare("WorldEnd"@)],
        warnings: s.warnings + world.warnings,
    }
}

// ---- settling drafts -------------------------------------------------------

/// The answer to a question: the first that is given for it.
pub open spec fn answer_to(answers: Seq<(Sum, u64)>, q: Sum) -> Option<u64>
    decreases answers.len(),
{
    if answers.len() == 0 {
        None
    } else if answers[0].0 == q {
        Some(answers[0].1)
    } else {
        answer_to(answers.drop_first(), q)
    }
}

/// The question that a value leaves open.
pub open spec fn question(v: DraftValueView) -> Option<Sum> {
    match v {
        DraftValueView::Ready(_) => None,
        DraftValueView::Number(q) => Some(q),
        DraftValueView::Numbers(q) => Some(q),
    }
}

/// The questions of these values, in their order.
pub open spec fn value_questions(values: Seq<DraftValueView>) -> Seq<Sum>
    decreases values.len(),
{
    if values.len() == 0 {
        seq![]
    } else {
        value_questions(values.drop_last()) + match question(values.last()) {
            Some(q) => seq![q],
            None => seq![],
        }
    }
}

/// The questions of these drafts, in their order.
pub open spec fn open_questions(drafts: Seq<DraftView>) -> Seq<Sum>
    decreases drafts.len(),
{
    if drafts.len() == 0 {
        seq![]
    } else {
        open_questions(drafts.drop_last()) + value_questions(drafts.last().values)
    }
}

/// A value with its question answered.
pub open spec fn settled_value(v: DraftValueView, answers: Seq<(Sum, u64)>) -> ValueView {
    match v {
        DraftValueView::Ready(v) => v,
        DraftValueView::Number(q) => ValueView::Number(number_or(answer_to(answers, q), ZERO)),
        DraftValueView::Numbers(q) => ValueView::Numbers(
            seq![number_or(answer_to(answers, q), ZERO)],
        ),
    }
}

/// Whether every question of these values is answered.
pub open spec fn values_answered(values: Seq<DraftValueView>, answers: Seq<(Sum, u64)>) -> bool {
    forall|i: int|
        0 <= i < values.len() ==> (question(#[trigger] values[i]) matches Some(q) ==> answer_to(
            answers,
            q,
        ) is Some)
}

/// Whether every question of these drafts is answered.
pub open spec fn all_answered(drafts: Seq<DraftView>, answers: Seq<(Sum, u64)>) -> bool {
    forall|i: int| 0 <= i < drafts.len() ==> values_answered((#[trigger] drafts[i]).values, answers)
}

/// A draft with its questions answered.
pub open spec fn settled_request(d: DraftView, answers: Seq<(Sum, u64)>) -> RequestView {
    RequestView {
        name: d.name,
        values: d.values.map_values(|v: DraftValueView| settled_value(v, answers)),
    }
}

/// Drafts with their questions answered.
pub open spec fn settled(drafts: Seq<DraftView>, answers: Seq<(Sum, u64)>) -> Seq<RequestView> {
    drafts.map_values(|d: DraftView| settled_request(d, answers))
}

// ---- drafting --------------------------------------------------------------

/// The value of an attribute.
fn find_attr<'a>(attrs: &'a Vec<(String, UsdValue)>, name: &str) -> (r: Option<&'a UsdValue>)
    ensures
        match r {
            Some(v) => attr(stage::attr_views(attrs@), name@) == Some(v@),
            None => attr(stage::attr_views(attrs@), name@) is None,
        },
{
    let ghost all = stage::attr_views(attrs@);
    let mut i: usize = attrs.len();
    assert(all.take(i as int) =~= all);
    while i > 0
        invariant
            i <= attrs@.len(),
            all == stage::attr_views(attrs@),
            attr(all, name@) == attr(all.take(i as int), name@),
        decreases i,
    {
        assert(all.take(i as int).drop_last() =~= all.take(i - 1));
        i -= 1;
        assert(all[i as int] == (attrs@[i as int].0@, attrs@[i as int].1@));
        if same_text(attrs[i].0.as_str(), name) {
            return Some(&attrs[i].1);
        }
    }
    None
}

fn find_numbers<'a>(attrs: &'a Vec<(String, UsdValue)>, name: &str) -> (r: Option<&'a Vec<u64>>)
    ensures
        match r {
            Some(v) => attr_numbers(stage::attr_views(attrs@), name@) == Some(v@),
            None => attr_numbers(stage::attr_views(attrs@), name@) is None,
        },
{
    match find_attr(attrs, name) {
        Some(UsdValue::Numbers(v)) => Some(v),
        _ => None,
    }
}

fn find_number(attrs: &Vec<(String, UsdValue)>, name: &str) -> (r: Option<u64>)
    ensures
        r == attr_number(stage::attr_views(attrs@), name@),
{
    match find_numbers(attrs, name) {
        Some(v) => if v.len() > 0 {
            Some(v[0])
        } else {
            None
        },
        None => None,
    }
}

fn or_else(n: Option<u64>, default: u64) -> (r: u64)
    ensures
        r == number_or(n, default),
{
    match n {
        Some(n) => n,
        None => default,
    }
}

/// The numbers of an attribute, or a default of three.
fn three_or(attrs: &Vec<(String, UsdValue)>, name: &str, default: u64) -> (r: Vec<u64>)
    ensures
        r@ == numbers_or(
            attr_numbers(stage::attr_views(attrs@), name@),
            seq![default, default, default],
        ),
{
    match find_numbers(attrs, name) {
        Some(v) => to_vector(v.as_slice()),
        None => {
            let v: Vec<u64> = vec![default, default, default];
            assert(v@ =~= seq![default, default, default]);
            v
        },
    }
}

fn ready(n: u64) -> (r: DraftValue)
    ensures
        r@ == number(n),
{
    DraftValue::Ready(RibValue::Number(n))
}

fn ready_numbers(v: Vec<u64>) -> (r: DraftValue)
    ensures
        r@ == numbers(v@),
{
    DraftValue::Ready(RibValue::Numbers(v))
}

fn ready_word(s: &str) -> (r: DraftValue)
    ensures
        r@ == word(s@),
{
    DraftValue::Ready(RibValue::String(text::copy_of(s)))
}

fn draft_three(name: &str, x: u64, y: u64, z: u64) -> (r: Draft)
    ensures
        r@ == three(name@, x, y, z),
{
    let values: Vec<DraftValue> = vec![ready(x), ready(y), ready(z)];
    assert(draft_value_views(values@) =~= seq![number(x), number(y), number(z)]);
    Draft { name: text::copy_of(name), values }
}

fn draft_rotation(angle: u64, x: u64, y: u64, z: u64) -> (r: Draft)
    ensures
        r@ == rotation(angle, x, y, z),
{
    let values: Vec<DraftValue> = vec![ready(angle), ready(x), ready(y), ready(z)];
    assert(draft_value_views(values@) =~= seq![number(angle), number(x), number(y), number(z)]);
    Draft { name: text::copy_of("Rotate"), values }
}

fn draft_bare(name: &str) -> (r: Draft)
    ensures
        r@ == bare(name@),
{
    let values: Vec<DraftValue> = Vec::new();
    assert(draft_value_views(values@) =~= seq![]);
    Draft { name: text::copy_of(name), values }
}

fn push_param(values: &mut Vec<DraftValue>, name: &str, v: Vec<u64>)
    ensures
        draft_value_views(final(values)@) == draft_value_views(old(values)@) + param(name@, v@),
{
    values.push(ready_word(name));
    values.push(ready_numbers(v));
    assert(draft_value_views(values@) =~= draft_value_views(old(values)@) + param(name@, v@));
}

fn one_number(n: u64) -> (r: Vec<u64>)
    ensures
        r@ == seq![n],
{
    let v: Vec<u64> = vec![n];
    assert(v@ =~= seq![n]);
    v
}

/// Requests as they are drafted.
struct Output {
    drafts: Vec<Draft>,
    warnings: Vec<UsdWarning>,
}

impl View for Output {
    type V = OutView;

    closed spec fn view(&self) -> OutView {
        OutView {
            drafts: draft_views(self.drafts@),
            warnings: stage::warning_views(self.warnings@),
        }
    }
}

proof fn joined_assoc(a: OutView, b: OutView, c: OutView)
    ensures
        joined(joined(a, b), c) == joined(a, joined(b, c)),
        joined(a, nothing()) == a,
{
    assert(joined(joined(a, b), c).drafts =~= joined(a, joined(b, c)).drafts);
    assert(joined(joined(a, b), c).warnings =~= joined(a, joined(b, c)).warnings);
    assert(joined(a, nothing()).drafts =~= a.drafts);
    assert(joined(a, nothing()).warnings =~= a.warnings);
}

impl Output {
    fn add_draft(&mut self, d: Draft)
        ensures
            final(self)@ == joined(old(self)@, only(seq![d@])),
    {
        self.drafts.push(d);
        assert(self@.drafts =~= old(self)@.drafts + seq![d@]);
        assert(self@.warnings =~= old(self)@.warnings + seq![]);
    }

    fn warn(&mut self, w: UsdWarning)
        ensures
            final(self)@ == joined(
                old(self)@,
                OutView { drafts: seq![], warnings: seq![w@] },
            ),
    {
        self.warnings.push(w);
        assert(self@.drafts =~= old(self)@.drafts + seq![]);
        assert(self@.warnings =~= old(self)@.warnings + seq![w@]);
    }

    /// Draft one transform operation.
    fn add_op(&mut self, base: &str, v: &Vec<u64>)
        ensures
            final(self)@ == joined(old(self)@, op_out(base@, v@)),
    {
        if starts_with(base, "xformOp:translate") && v.len() >= 3 {
            self.add_draft(draft_three("Translate", v[0], v[1], v[2]));
        } else if starts_with(base, "xformOp:rotateXYZ") && v.len() >= 3 {
            let ghost z = rotation(v@[2], ZERO, ZERO, ONE);
            let ghost y = rotation(v@[1], ZERO, ONE, ZERO);
            let ghost x = rotation(v@[0], ONE, ZERO, ZERO);
            self.add_draft(draft_rotation(v[2], ZERO, ZERO, ONE));
            self.add_draft(draft_rotation(v[1], ZERO, ONE, ZERO));
            self.add_draft(draft_rotation(v[0], ONE, ZERO, ZERO));
            proof {
                assert(self@.drafts =~= old(self)@.drafts + seq![z, y, x]);
                assert(self@.warnings =~= old(self)@.warnings + seq![]);
            }
        } else if starts_with(base, "xformOp:rotateX") && v.len() >= 1 {
            self.add_draft(draft_rotation(v[0], ONE, ZERO, ZERO));
        } else if starts_with(base, "xformOp:rotateY") && v.len() >= 1 {
            self.add_draft(draft_rotation(v[0], ZERO, ONE, ZERO));
        } else if starts_with(base, "xformOp:rotateZ") && v.len() >= 1 {
            self.add_draft(draft_rotation(v[0], ZERO, ZERO, ONE));
        } else if starts_with(base, "xformOp:scale") && v.len() >= 3 {
            self.add_draft(draft_three("Scale", v[0], v[1], v[2]));
        } else if starts_with(base, "xformOp:transform") && v.len() >= 16 {
            let values: Vec<DraftValue> = vec![ready_numbers(to_vector(v.as_slice()))];
            assert(draft_value_views(values@) =~= seq![numbers(v@)]);
            self.add_draft(Draft { name: text::copy_of("ConcatTransform"), values });
        } else {
            self.warn(UsdWarning::UnsupportedOp(text::copy_of(base)));
        }
    }

    /// Draft the transforms of a prim, in their order.
    fn emit_xform(&mut self, prim: &Prim)
        ensures
            final(self)@ == joined(old(self)@, ops_out(op_order(prim@.attrs), prim@.attrs)),
    {
        let ops: Vec<String> = read_op_order(&prim.attrs);
        let ghost names = ast::string_views(ops@);
        let ghost attrs = prim@.attrs;
        let n: usize = ops.len();
        let mut i: usize = 0;
        proof {
            assert(names.take(0) =~= seq![]);
            joined_assoc(self@, nothing(), nothing());
        }
        while i < n
            invariant
                i <= n == ops@.len(),
                names == ast::string_views(ops@),
                attrs == prim@.attrs,
                self@ == joined(old(self)@, ops_out(names.take(i as int), attrs)),
            decreases n - i,
        {
            let base: String = drop_bangs(ops[i].as_str());
            let ghost before = self@;
            let ghost done = ops_out(names.take(i as int), attrs);
            proof {
                assert(names.take(i + 1).drop_last() =~= names.take(i as int));
                assert(names.take(i + 1).last() == ops@[i as int]@);
            }
            match find_numbers(&prim.attrs, base.as_str()) {
                Some(v) => {
                    self.add_op(base.as_str(), v);
                    proof {
                        joined_assoc(old(self)@, done, op_out(base@, v@));
                    }
                },
                None => {
                    proof {
                        joined_assoc(old(self)@, done, nothing());
                        joined_assoc(before, nothing(), nothing());
                    }
                },
            }
            i += 1;
        }
        assert(names.take(n as int) =~= names);
    }

    /// Draft the material that is bound to a prim.
    fn emit_material(&mut self, prims: &Vec<Prim>, prim: &Prim)
        ensures
            final(self)@ == joined(
                old(self)@,
                material_out(stage::prim_views(prims@), prim@.attrs),
            ),
    {
        match find_surface(prims, prim) {
            Some(i) => {
                let values: Vec<DraftValue> = draft_surface(&prims[i].attrs);
                self.add_draft(Draft { name: text::copy_of("Bxdf"), values });
            },
            None => {
                proof {
                    joined_assoc(self@, nothing(), nothing());
                }
            },
        }
    }

    /// Draft a light of that kind.
    fn add_light(&mut self, prim: &Prim, kind: &str, more: Vec<DraftValue>)
        ensures
            final(self)@ == joined(
                old(self)@,
                light_of(prim@, kind@, draft_value_views(more@)),
            ),
    {
        let power: Sum = Sum::Power {
            intensity: or_else(find_number(&prim.attrs, "inputs:intensity"), ONE),
            exposure: find_number(&prim.attrs, "inputs:exposure"),
        };
        let color: Vec<u64> = three_or(&prim.attrs, "inputs:color", ONE);
        let ghost shown = color@;
        let mut values: Vec<DraftValue> = vec![
            ready_word(kind),
            ready_word(prim.name.as_str()),
            ready_word("intensity"),
            DraftValue::Numbers(power),
            ready_word("lightColor"),
            ready_numbers(color),
        ];
        let mut more = more;
        let ghost first = values@;
        let ghost second = more@;
        values.append(&mut more);
        proof {
            assert(draft_value_views(values@) =~= seq![
                word(kind@),
                word(prim@.name),
                word("intensity"@),
                DraftValueView::Numbers(power),
                word("lightColor"@),
                numbers(shown),
            ] + draft_value_views(second));
        }
        self.add_draft(Draft { name: text::copy_of("Light"), values });
    }

    /// Draft the light that a prim is, if it is one.
    fn emit_light(&mut self, prim: &Prim)
        ensures
            final(self)@ == joined(old(self)@, light_out(prim@)),
    {
        let kind: &str = prim.kind.as_str();
        if same_text(kind, "DistantLight") {
            let more: Vec<DraftValue> = carry(&prim.attrs, "inputs:angle", "angleExtent");
            self.add_light(prim, "PxrDistantLight", more);
        } else if same_text(kind, "DomeLight") {
            let mut more: Vec<DraftValue> = Vec::new();
            if let Some(UsdValue::Asset(file)) = find_attr(&prim.attrs, "inputs:texture:file") {
                more.push(ready_word("lightColorMap"));
                more.push(ready_word(file.as_str()));
                assert(draft_value_views(more@) =~= seq![word("lightColorMap"@), word(file@)]);
            } else {
                assert(draft_value_views(more@) =~= seq![]);
            }
            self.add_light(prim, "PxrDomeLight", more);
        } else if same_text(kind, "SphereLight") {
            let more: Vec<DraftValue> = carry(&prim.attrs, "inputs:radius", "radius");
            self.add_light(prim, "PxrSphereLight", more);
        } else if same_text(kind, "RectLight") {
            let mut more: Vec<DraftValue> = carry(&prim.attrs, "inputs:width", "width");
            let mut height: Vec<DraftValue> = carry(&prim.attrs, "inputs:height", "height");
            let ghost a = more@;
            let ghost b = height@;
            more.append(&mut height);
            assert(draft_value_views(more@) =~= draft_value_views(a) + draft_value_views(b));
            self.add_light(prim, "PxrRectLight", more);
        } else {
            proof {
                joined_assoc(self@, nothing(), nothing());
            }
        }
    }

    /// Draft the geometry that a prim is, if it is any.
    fn emit_geometry(&mut self, prim: &Prim)
        ensures
            final(self)@ == joined(old(self)@, geometry_out(prim@)),
    {
        let kind: &str = prim.kind.as_str();
        if same_text(kind, "Mesh") {
            let counts: Option<&Vec<u64>> = find_numbers(&prim.attrs, "faceVertexCounts");
            let indices: Option<&Vec<u64>> = find_numbers(&prim.attrs, "faceVertexIndices");
            let points: Option<&Vec<u64>> = find_numbers(&prim.attrs, "points");
            match (counts, indices, points) {
                (Some(counts), Some(indices), Some(points)) => {
                    self.add_draft(draft_mesh(&prim.attrs, counts, indices, points));
                },
                _ => {
                    self.warn(UsdWarning::NoTopology(text::copy_of(prim.name.as_str())));
                },
            }
        } else if same_text(kind, "Sphere") {
            let r: u64 = or_else(find_number(&prim.attrs, "radius"), ONE);
            let values: Vec<DraftValue> = vec![
                ready(r),
                ready(double::negate(r)),
                ready(r),
                ready(FULL_CIRCLE),
            ];
            assert(draft_value_views(values@) =~= seq![
                number(r),
                number(double::negated(r)),
                number(r),
                number(FULL_CIRCLE),
            ]);
            self.add_draft(Draft { name: text::copy_of("Sphere"), values });
        } else if same_text(kind, "Cube") {
            let s: u64 = double::halve(or_else(find_number(&prim.attrs, "size"), TWO));
            self.add_draft(draft_cube(s));
        } else {
            proof {
                joined_assoc(self@, nothing(), nothing());
            }
        }
    }

    /// Draft the prims in `[from, to)` and those below them.
    fn walk(&mut self, prims: &Vec<Prim>, from: usize, to: usize)
        ensures
            final(self)@ == joined(
                old(self)@,
                walk_out(stage::prim_views(prims@), from as int, to as int),
            ),
        decreases to - from,
    {
        let ghost all = stage::prim_views(prims@);
        let mut i: usize = from;
        proof {
            joined_assoc(self@, nothing(), nothing());
        }
        let ghost start = self@;
        let ghost mut done = nothing();
        loop
            invariant
                from <= i || i == from,
                all == stage::prim_views(prims@),
                start == old(self)@,
                self@ == joined(start, done),
                walk_out(all, from as int, to as int) == joined(
                    done,
                    walk_out(all, i as int, to as int),
                ) || (i == from && done == nothing()),
            decreases to - i,
        {
            if i >= to || to > prims.len() || prims[i].size < 1 || prims[i].size > to - i {
                proof {
                    joined_assoc(done, nothing(), nothing());
                    assert(joined(nothing(), nothing()).drafts =~= nothing().drafts);
                    assert(joined(nothing(), nothing()).warnings =~= nothing().warnings);
                }
                return;
            }
            let prim: &Prim = &prims[i];
            let end: usize = i + prim.size;
            let ghost own = if is_passed_over(all[i as int].kind) {
                nothing()
            } else {
                joined(
                    joined(
                        joined(only(seq![bare("AttributeBegin"@)]), own_out(all, i as int)),
                        walk_out(all, i + 1, end as int),
                    ),
                    only(seq![bare("AttributeEnd"@)]),
                )
            };
            let ghost before = self@;
            let kind: &str = prim.kind.as_str();
            let passed: bool = same_text(kind, "Camera") || same_text(kind, "Material")
                || same_text(kind, "Shader");
            if !passed {
                let ghost p = all[i as int];
                let ghost begin = only(seq![bare("AttributeBegin"@)]);
                let ghost x = ops_out(op_order(p.attrs), p.attrs);
                let ghost m = material_out(all, p.attrs);
                let ghost l = light_out(p);
                let ghost g = geometry_out(p);
                let ghost w = walk_out(all, i + 1, end as int);
                let ghost e = only(seq![bare("AttributeEnd"@)]);
                self.add_draft(draft_bare("AttributeBegin"));
                self.emit_xform(prim);
                self.emit_material(prims, prim);
                self.emit_light(prim);
                self.emit_geometry(prim);
                self.walk(prims, i + 1, end);
                self.add_draft(draft_bare("AttributeEnd"));
                proof {
                    let bx = joined(before, begin);
                    joined_assoc(bx, x, m);
                    joined_assoc(bx, joined(x, m), l);
                    joined_assoc(bx, joined(joined(x, m), l), g);
                    let o = own_out(all, i as int);
                    joined_assoc(before, begin, o);
                    joined_assoc(before, joined(begin, o), w);
                    joined_assoc(before, joined(joined(begin, o), w), e);
                }
            }
            proof {
                joined_assoc(before, nothing(), nothing());
                assert(self@ == joined(before, own));
                let rest = walk_out(all, end as int, to as int);
                assert(walk_out(all, i as int, to as int) == joined(own, rest));
                joined_assoc(start, done, own);
                joined_assoc(done, own, rest);
                if i == from && done == nothing() {
                    assert(joined(nothing(), own).drafts =~= own.drafts);
                    assert(joined(nothing(), own).warnings =~= own.warnings);
                }
                done = joined(done, own);
            }
            i = end;
        }
    }
}

/// The transform operations of a prim.
fn read_op_order(attrs: &Vec<(String, UsdValue)>) -> (r: Vec<String>)
    ensures
        ast::string_views(r@) == op_order(stage::attr_views(attrs@)),
{
    match find_attr(attrs, "xformOpOrder") {
        Some(UsdValue::Tokens(t)) => copy_strings(t),
        _ => {
            let mut ops: Vec<String> = Vec::new();
            assert(ast::string_views(ops@) =~= seq![]);
            push_given(&mut ops, attrs, "xformOp:translate");
            push_given(&mut ops, attrs, "xformOp:rotateXYZ");
            push_given(&mut ops, attrs, "xformOp:scale");
            proof {
                let given = stage::attr_views(attrs@);
                assert(ast::string_views(ops@) =~= if_given(given, "xformOp:translate"@)
                    + if_given(given, "xformOp:rotateXYZ"@) + if_given(given, "xformOp:scale"@));
            }
            ops
        },
    }
}

fn push_given(ops: &mut Vec<String>, attrs: &Vec<(String, UsdValue)>, name: &str)
    ensures
        ast::string_views(final(ops)@) == ast::string_views(old(ops)@) + if_given(
            stage::attr_views(attrs@),
            name@,
        ),
{
    if find_attr(attrs, name).is_some() {
        ops.push(text::copy_of(name));
    }
    assert(ast::string_views(ops@) =~= ast::string_views(old(ops)@) + if_given(
        stage::attr_views(attrs@),
        name@,
    ));
}

fn copy_strings(v: &Vec<String>) -> (r: Vec<String>)
    ensures
        ast::string_views(r@) == ast::string_views(v@),
{
    let n: usize = v.len();
    let mut out: Vec<String> = Vec::new();
    let mut i: usize = 0;
    while i < n
        invariant
            i <= n == v@.len(),
            out@.len() == i,
            forall|j: int| 0 <= j < i ==> (#[trigger] out@[j])@ == v@[j]@,
        decreases n - i,
    {
        out.push(text::copy_of(v[i].as_str()));
        i += 1;
    }
    assert(ast::string_views(out@) =~= ast::string_views(v@));
    out
}

fn drop_bangs(s: &str) -> (r: String)
    ensures
        r@ == without_bangs(s@),
{
    let chars: Vec<char> = text::chars_of(s);
    let n: usize = chars.len();
    let mut i: usize = 0;
    assert(chars@.subrange(0, n as int) =~= s@);
    while i < n && chars[i] == '!'
        invariant
            i <= n == chars@.len(),
            without_bangs(s@) == without_bangs(chars@.subrange(i as int, n as int)),
        decreases n - i,
    {
        assert(chars@.subrange(i as int, n as int).drop_first() =~= chars@.subrange(
            i + 1,
            n as int,
        ));
        i += 1;
    }
    text::string_of(&chars, i, n)
}

/// Find a sibling by its name.
fn find_sibling(prims: &Vec<Prim>, from: usize, to: usize, name: &str) -> (r: Option<usize>)
    ensures
        match r {
            Some(i) => sibling_named(stage::prim_views(prims@), from as int, to as int, name@)
                == Some(i as int) && i < prims@.len() && 1 <= prims@[i as int].size && i
                + prims@[i as int].size <= prims@.len(),
            None => sibling_named(stage::prim_views(prims@), from as int, to as int, name@) is None,
        },
{
    let ghost all = stage::prim_views(prims@);
    let mut i: usize = from;
    loop
        invariant
            all == stage::prim_views(prims@),
            sibling_named(all, from as int, to as int, name@) == sibling_named(
                all,
                i as int,
                to as int,
                name@,
            ),
        decreases to - i,
    {
        if i >= to || to > prims.len() || prims[i].size < 1 || prims[i].size > to - i {
            return None;
        }
        assert(all[i as int] == prims@[i as int]@);
        if same_text(prims[i].name.as_str(), name) {
            return Some(i);
        }
        i += prims[i].size;
    }
}

/// Find a prim by its absolute path.
fn find_by_path(prims: &Vec<Prim>, path: &str) -> (r: Option<usize>)
    ensures
        match r {
            Some(i) => find_prim(stage::prim_views(prims@), path@) == Some(i as int) && i
                < prims@.len() && 1 <= prims@[i as int].size && i + prims@[i as int].size
                <= prims@.len(),
            None => find_prim(stage::prim_views(prims@), path@) is None,
        },
{
    let chars: Vec<char> = text::chars_of(path);
    let n: usize = chars.len();
    let ghost all = stage::prim_views(prims@);
    let mut p: usize = 0;
    while p < n && chars[p] == '/'
        invariant
            p <= n == chars@.len(),
            past_slashes(chars@, 0) == past_slashes(chars@, p as int),
        decreases n - p,
    {
        p += 1;
    }
    let mut from: usize = 0;
    let mut to: usize = prims.len();
    loop
        invariant
            p <= n == chars@.len(),
            chars@ == path@,
            all == stage::prim_views(prims@),
            find_prim(all, path@) == prim_on_path(all, from as int, to as int, path@, p as int),
        decreases n - p,
    {
        let mut e: usize = p;
        while e < n && chars[e] != '/'
            invariant
                p <= e <= n == chars@.len(),
                slash(chars@, p as int) == slash(chars@, e as int),
            decreases n - e,
        {
            e += 1;
        }
        let part: String = text::string_of(&chars, p, e);
        match find_sibling(prims, from, to, part.as_str()) {
            None => {
                return None;
            },
            Some(i) => {
                if e >= n {
                    return Some(i);
                }
                let count: usize = prims.len();
                assert(all[i as int] == prims@[i as int]@);
                from = i + 1;
                to = i + prims[i].size;
                p = e + 1;
            },
        }
    }
}

/// Find the preview surface that is bound to a prim.
fn find_surface(prims: &Vec<Prim>, prim: &Prim) -> (r: Option<usize>)
    ensures
        match r {
            Some(i) => bound_surface(stage::prim_views(prims@), prim@.attrs) == Some(i as int)
                && i < prims@.len(),
            None => bound_surface(stage::prim_views(prims@), prim@.attrs) is None,
        },
{
    let ghost all = stage::prim_views(prims@);
    match find_attr(&prim.attrs, "material:binding") {
        Some(UsdValue::Paths(paths)) => {
            if paths.len() == 0 {
                return None;
            }
            assert(ast::string_views(paths@)[0] == paths@[0]@);
            match find_by_path(prims, paths[0].as_str()) {
                None => None,
                Some(m) => {
                    let count: usize = prims.len();
                    assert(all[m as int] == prims@[m as int]@);
                    let to: usize = m + prims[m].size;
                    let mut i: usize = m + 1;
                    loop
                        invariant
                            to <= prims@.len(),
                            all == stage::prim_views(prims@),
                            bound_surface(all, prim@.attrs) == sibling_surface(
                                all,
                                i as int,
                                to as int,
                            ),
                        decreases to - i,
                    {
                        if i >= to || prims[i].size < 1 || prims[i].size > to - i {
                            return None;
                        }
                        assert(all[i as int] == prims@[i as int]@);
                        if let Some(UsdValue::Text(id)) = find_attr(&prims[i].attrs, "info:id") {
                            if same_text(id.as_str(), "UsdPreviewSurface") {
                                return Some(i);
                            }
                        }
                        i += prims[i].size;
                    }
                },
            }
        },
        _ => None,
    }
}

fn has_positive(v: &Vec<u64>) -> (r: bool)
    ensures
        r == any_positive(v@),
{
    let n: usize = v.len();
    let mut i: usize = 0;
    while i < n
        invariant
            i <= n == v@.len(),
            forall|j: int| 0 <= j < i ==> !double::below(ZERO, #[trigger] v@[j]),
        decreases n - i,
    {
        if double::less(ZERO, v[i]) {
            return true;
        }
        i += 1;
    }
    false
}

/// The values of a surface request.
fn draft_surface(attrs: &Vec<(String, UsdValue)>) -> (r: Vec<DraftValue>)
    ensures
        draft_value_views(r@) == surface_values(stage::attr_views(attrs@)),
{
    let diffuse: Vec<u64> = three_or(attrs, "inputs:diffuseColor", GREY);
    let roughness: u64 = or_else(find_number(attrs, "inputs:roughness"), HALF);
    let metallic: u64 = or_else(find_number(attrs, "inputs:metallic"), ZERO);
    let ior: u64 = or_else(find_number(attrs, "inputs:ior"), DEFAULT_IOR);
    let emissive: Vec<u64> = three_or(attrs, "inputs:emissiveColor", ZERO);
    let opacity: u64 = or_else(find_number(attrs, "inputs:opacity"), ONE);
    let mut values: Vec<DraftValue> = vec![ready_word("PxrSurface"), ready_word("usd")];
    assert(draft_value_views(values@) =~= seq![word("PxrSurface"@), word("usd"@)]);
    if double::less(HALF, metallic) {
        push_param(&mut values, "diffuseGain", one_number(ZERO));
        push_param(&mut values, "specularFaceColor", diffuse);
    } else {
        push_param(&mut values, "diffuseGain", one_number(ONE));
        push_param(&mut values, "diffuseColor", diffuse);
        push_param(&mut values, "specularIor", one_number(ior));
    }
    let least: u64 = double::larger_of(roughness, LEAST_ROUGHNESS);
    push_param(&mut values, "specularRoughness", one_number(least));
    if has_positive(&emissive) {
        push_param(&mut values, "glowGain", one_number(ONE));
        push_param(&mut values, "glowColor", emissive);
    }
    if double::less(opacity, ONE) {
        push_param(&mut values, "presence", one_number(opacity));
    }
    assert(draft_value_views(values@) =~= surface_values(stage::attr_views(attrs@)));
    values
}

/// A parameter that carries the first number of an attribute.
fn carry(attrs: &Vec<(String, UsdValue)>, name: &str, as_name: &str) -> (r: Vec<DraftValue>)
    ensures
        draft_value_views(r@) == carried(stage::attr_views(attrs@), name@, as_name@),
{
    let mut values: Vec<DraftValue> = Vec::new();
    assert(draft_value_views(values@) =~= seq![]);
    if let Some(n) = find_number(attrs, name) {
        push_param(&mut values, as_name, one_number(n));
        assert(draft_value_views(values@) =~= param(as_name@, seq![n]));
    }
    values
}

fn draft_mesh(
    attrs: &Vec<(String, UsdValue)>,
    counts: &Vec<u64>,
    indices: &Vec<u64>,
    points: &Vec<u64>,
) -> (r: Draft)
    ensures
        r@ == mesh_draft(stage::attr_views(attrs@), counts@, indices@, points@),
{
    let mut values: Vec<DraftValue> = vec![
        ready_numbers(to_vector(counts.as_slice())),
        ready_numbers(to_vector(indices.as_slice())),
        ready_word("P"),
        ready_numbers(to_vector(points.as_slice())),
    ];
    let ghost first = seq![numbers(counts@), numbers(indices@), word("P"@), numbers(points@)];
    assert(draft_value_views(values@) =~= first);
    if let Some(v) = find_numbers(attrs, "normals") {
        if v.len() == points.len() {
            push_param(&mut values, "N", to_vector(v.as_slice()));
        }
    }
    if let Some(v) = find_numbers(attrs, "primvars:st") {
        let a: u128 = v.len() as u128 * 3;
        let b: u128 = points.len() as u128 * 2;
        if a == b {
            push_param(&mut values, "st", to_vector(v.as_slice()));
        }
    }
    let ghost model = mesh_draft(stage::attr_views(attrs@), counts@, indices@, points@);
    assert(draft_value_views(values@) =~= model.values);
    Draft { name: text::copy_of("PointsPolygons"), values }
}

fn draft_cube(s: u64) -> (r: Draft)
    ensures
        r@ == (DraftView {
            name: "PointsPolygons"@,
            values: seq![
                numbers(seq![FOUR, FOUR, FOUR, FOUR, FOUR, FOUR]),
                numbers(cube_indices()),
                word("P"@),
                numbers(cube_points(s)),
            ],
        }),
{
    let n: u64 = double::negate(s);
    let counts: Vec<u64> = vec![FOUR, FOUR, FOUR, FOUR, FOUR, FOUR];
    let indices: Vec<u64> = vec![
        ZERO, THREE, TWO, ONE, FOUR, FIVE, SIX, SEVEN, ZERO, ONE, FIVE, FOUR, TWO, THREE, SEVEN,
        SIX, ONE, TWO, SIX, FIVE, ZERO, FOUR, SEVEN, THREE,
    ];
    let points: Vec<u64> = vec![
        n, n, n, s, n, n, s, s, n, n, s, n, n, n, s, s, n, s, s, s, s, n, s, s,
    ];
    proof {
        assert(counts@ =~= seq![FOUR, FOUR, FOUR, FOUR, FOUR, FOUR]);
        assert(indices@ =~= cube_indices());
        assert(points@ =~= cube_points(s));
    }
    let values: Vec<DraftValue> = vec![
        ready_numbers(counts),
        ready_numbers(indices),
        ready_word("P"),
        ready_numbers(points),
    ];
    assert(draft_value_views(values@) =~= seq![
        numbers(seq![FOUR, FOUR, FOUR, FOUR, FOUR, FOUR]),
        numbers(cube_indices()),
        word("P"@),
        numbers(cube_points(s)),
    ]);
    Draft { name: text::copy_of("PointsPolygons"), values }
}

/// Draft what undoes one operation.
fn push_undo(drafts: &mut Vec<Draft>, op: &str, v: &Vec<u64>)
    ensures
        draft_views(final(drafts)@) == draft_views(old(drafts)@) + undo_out(op@, v@),
{
    let ghost before = draft_views(drafts@);
    if starts_with(op, "xformOp:translate") && v.len() >= 3 {
        let d: Draft = draft_three(
            "Translate",
            double::negate(v[0]),
            double::negate(v[1]),
            double::negate(v[2]),
        );
        drafts.push(d);
    } else if starts_with(op, "xformOp:rotateXYZ") && v.len() >= 3 {
        drafts.push(draft_rotation(double::negate(v[0]), ONE, ZERO, ZERO));
        drafts.push(draft_rotation(double::negate(v[1]), ZERO, ONE, ZERO));
        drafts.push(draft_rotation(double::negate(v[2]), ZERO, ZERO, ONE));
    } else if starts_with(op, "xformOp:scale") && v.len() >= 3 {
        let values: Vec<DraftValue> = vec![
            DraftValue::Number(Sum::Reciprocal(keep_away(v[0]))),
            DraftValue::Number(Sum::Reciprocal(keep_away(v[1]))),
            DraftValue::Number(Sum::Reciprocal(keep_away(v[2]))),
        ];
        assert(draft_value_views(values@) =~= seq![
            DraftValueView::Number(Sum::Reciprocal(kept_away(v@[0]))),
            DraftValueView::Number(Sum::Reciprocal(kept_away(v@[1]))),
            DraftValueView::Number(Sum::Reciprocal(kept_away(v@[2]))),
        ]);
        drafts.push(Draft { name: text::copy_of("Scale"), values });
    }
    assert(draft_views(drafts@) =~= before + undo_out(op@, v@));
}

/// The transform operations of a prim, last first.
fn read_undo_order(attrs: &Vec<(String, UsdValue)>) -> (r: Vec<String>)
    ensures
        ast::string_views(r@) == undo_order(stage::attr_views(attrs@)),
{
    match find_attr(attrs, "xformOpOrder") {
        Some(UsdValue::Tokens(t)) => {
            let n: usize = t.len();
            let mut ops: Vec<String> = Vec::new();
            let mut i: usize = n;
            while i > 0
                invariant
                    i <= n == t@.len(),
                    ops@.len() == n - i,
                    forall|j: int| 0 <= j < n - i ==> (#[trigger] ops@[j])@ == t@[n - 1 - j]@,
                decreases i,
            {
                i -= 1;
                ops.push(text::copy_of(t[i].as_str()));
            }
            assert(ast::string_views(ops@) =~= ast::string_views(t@).reverse());
            ops
        },
        _ => {
            let mut ops: Vec<String> = Vec::new();
            assert(ast::string_views(ops@) =~= seq![]);
            push_given(&mut ops, attrs, "xformOp:scale");
            push_given(&mut ops, attrs, "xformOp:rotateXYZ");
            push_given(&mut ops, attrs, "xformOp:translate");
            proof {
                let given = stage::attr_views(attrs@);
                assert(ast::string_views(ops@) =~= if_given(given, "xformOp:scale"@) + if_given(
                    given,
                    "xformOp:rotateXYZ"@,
                ) + if_given(given, "xformOp:translate"@));
            }
            ops
        },
    }
}

/// Draft what undoes the transforms of a prim.
fn push_undos(drafts: &mut Vec<Draft>, attrs: &Vec<(String, UsdValue)>)
    ensures
        draft_views(final(drafts)@) == draft_views(old(drafts)@) + undos_out(
            undo_order(stage::attr_views(attrs@)),
            stage::attr_views(attrs@),
        ),
{
    let ops: Vec<String> = read_undo_order(attrs);
    let ghost names = ast::string_views(ops@);
    let ghost given = stage::attr_views(attrs@);
    let ghost before = draft_views(drafts@);
    let n: usize = ops.len();
    let mut i: usize = 0;
    proof {
        assert(names.take(0) =~= seq![]);
        assert(before + undos_out(names.take(0), given) =~= before);
    }
    while i < n
        invariant
            i <= n == ops@.len(),
            names == ast::string_views(ops@),
            given == stage::attr_views(attrs@),
            draft_views(drafts@) == before + undos_out(names.take(i as int), given),
        decreases n - i,
    {
        proof {
            assert(names.take(i + 1).drop_last() =~= names.take(i as int));
            assert(names.take(i + 1).last() == ops@[i as int]@);
        }
        match find_numbers(attrs, ops[i].as_str()) {
            Some(v) => {
                push_undo(drafts, ops[i].as_str(), v);
            },
            None => {},
        }
        i += 1;
        assert(draft_views(drafts@) =~= before + undos_out(names.take(i as int), given));
    }
    assert(names.take(n as int) =~= names);
}

/// The first camera.
fn find_camera(prims: &Vec<Prim>) -> (r: Option<usize>)
    ensures
        match r {
            Some(i) => camera_from(stage::prim_views(prims@), 0) == Some(i as int) && i
                < prims@.len(),
            None => camera_from(stage::prim_views(prims@), 0) is None,
        },
{
    let ghost all = stage::prim_views(prims@);
    let n: usize = prims.len();
    let mut i: usize = 0;
    while i < n
        invariant
            i <= n == prims@.len(),
            all == stage::prim_views(prims@),
            camera_from(all, 0) == camera_from(all, i as int),
        decreases n - i,
    {
        assert(all[i as int] == prims@[i as int]@);
        if same_text(prims[i].kind.as_str(), "Camera") {
            return Some(i);
        }
        i += 1;
    }
    None
}

/// Draft what undoes the transforms of a camera and of those above it.
fn push_chain(drafts: &mut Vec<Draft>, prims: &Vec<Prim>, c: usize)
    requires
        c < prims@.len(),
    ensures
        draft_views(final(drafts)@) == draft_views(old(drafts)@) + chain_out(
            stage::prim_views(prims@),
            c as int,
            c as int,
        ),
{
    let ghost all = stage::prim_views(prims@);
    let ghost before = draft_views(drafts@);
    let count: usize = prims.len();
    let mut a: usize = c + 1;
    while a > 0
        invariant
            a <= c + 1 <= prims@.len(),
            all == stage::prim_views(prims@),
            draft_views(drafts@) + chain_out(all, c as int, a - 1) == before + chain_out(
                all,
                c as int,
                c as int,
            ),
        decreases a,
    {
        a -= 1;
        let ghost mid = draft_views(drafts@);
        let ghost rest = chain_out(all, c as int, a - 1);
        assert(all[a as int] == prims@[a as int]@);
        if prims[a].size > c - a {
            push_undos(drafts, &prims[a].attrs);
            let ghost own = undos_out(undo_order(all[a as int].attrs), all[a as int].attrs);
            assert(mid + (own + rest) =~= (mid + own) + rest);
        } else {
            assert(mid + (Seq::<DraftView>::empty() + rest) =~= mid + rest);
        }
    }
    assert(draft_views(drafts@) + chain_out(all, c as int, -1) =~= draft_views(drafts@));
}

fn draft_projection(prims: &Vec<Prim>, camera: Option<usize>) -> (r: Draft)
    requires
        camera matches Some(c) ==> c < prims@.len() && camera_from(stage::prim_views(prims@), 0)
            == Some(c as int),
        camera is None ==> camera_from(stage::prim_views(prims@), 0) is None,
    ensures
        r@ == projection_of(stage::prim_views(prims@)),
{
    let fov: DraftValue = match camera {
        Some(c) => {
            let attrs: &Vec<(String, UsdValue)> = &prims[c].attrs;
            assert(stage::prim_views(prims@)[c as int] == prims@[c as int]@);
            DraftValue::Numbers(
                Sum::FieldOfView {
                    focal: or_else(find_number(attrs, "focalLength"), DEFAULT_FOCAL),
                    aperture: or_else(find_number(attrs, "horizontalAperture"), DEFAULT_APERTURE),
                },
            )
        },
        None => ready_numbers(one_number(DEFAULT_FOV)),
    };
    let ghost shown = fov@;
    let values: Vec<DraftValue> = vec![ready_word("perspective"), ready_word("fov"), fov];
    assert(draft_value_views(values@) =~= seq![word("perspective"@), word("fov"@), shown]);
    Draft { name: text::copy_of("Projection"), values }
}

/// Whether the stage has Z up.
fn is_z_up(meta: &Vec<(String, UsdValue)>) -> (r: bool)
    ensures
        r == (attr(stage::attr_views(meta@), "upAxis"@) == Some(UsdView::Text("Z"@))),
{
    match find_attr(meta, "upAxis") {
        Some(UsdValue::Text(axis)) => same_text(axis.as_str(), "Z"),
        _ => false,
    }
}

/// What a stage becomes: drafted requests, and all that is not carried over.
#[derive(Debug)]
pub struct Translation {
    pub drafts: Vec<Draft>,
    pub warnings: Vec<UsdWarning>,
}

impl View for Translation {
    type V = OutView;

    open spec fn view(&self) -> OutView {
        OutView {
            drafts: draft_views(self.drafts@),
            warnings: stage::warning_views(self.warnings@),
        }
    }
}

/// Draft the requests of a stage.
pub fn convert(stage: Stage) -> (r: Translation)
    ensures
        r@ == stage_out(stage@),
{
    let prims: &Vec<Prim> = &stage.prims;
    let mut drafts: Vec<Draft> = Vec::new();
    let camera: Option<usize> = find_camera(prims);
    drafts.push(draft_projection(prims, camera));
    drafts.push(draft_three("Scale", ONE, ONE, MINUS_ONE));
    let ghost head = seq![
        projection_of(stage@.prims),
        three("Scale"@, ONE, ONE, MINUS_ONE),
    ];
    assert(draft_views(drafts@) =~= head);
    if let Some(c) = camera {
        push_chain(&mut drafts, prims, c);
    }
    if is_z_up(&stage.meta) {
        drafts.push(draft_rotation(QUARTER_BACK, ONE, ZERO, ZERO));
    }
    assert(draft_views(drafts@) =~= view_of(stage@));
    drafts.push(draft_bare("WorldBegin"));
    assert(draft_views(drafts@) =~= view_of(stage@) + seq![bare("WorldBegin"@)]);
    let mut out: Output = Output { drafts, warnings: stage.warnings };
    out.walk(prims, 0, prims.len());
    out.add_draft(draft_bare("WorldEnd"));
    let r: Translation = Translation { drafts: out.drafts, warnings: out.warnings };
    proof {
        let world = walk_out(stage@.prims, 0, stage@.prims.len() as int);
        assert(r@.drafts =~= stage_out(stage@).drafts);
        assert(r@.warnings =~= stage_out(stage@).warnings);
    }
    r
}

/// Draft the requests of a .usda text.
pub fn usda_to_rib(text: &str) -> (r: Result<Translation, UsdError>)
    ensures
        match stage::stage_of(vstd::utf8::encode_utf8(text@)) {
            Ok(stage) => r matches Ok(t) && t@ == stage_out(stage),
            Err(e) => r matches Err(f) && f@ == e,
        },
{
    match parse_stage(text.as_bytes()) {
        Ok(stage) => Ok(convert(stage)),
        Err(e) => Err(e),
    }
}

/// The answer to a question.
fn find_answer(answers: &Vec<(Sum, u64)>, q: Sum) -> (r: Option<u64>)
    ensures
        r == answer_to(answers@, q),
{
    let n: usize = answers.len();
    let mut i: usize = 0;
    assert(answers@.skip(0) =~= answers@);
    while i < n
        invariant
            i <= n == answers@.len(),
            answer_to(answers@, q) == answer_to(answers@.skip(i as int), q),
        decreases n - i,
    {
        assert(answers@.skip(i as int).drop_first() =~= answers@.skip(i + 1));
        if answers[i].0 == q {
            return Some(answers[i].1);
        }
        i += 1;
    }
    None
}

fn copy_value(v: &RibValue) -> (r: RibValue)
    ensures
        r@ == v@,
{
    match v {
        RibValue::Number(n) => RibValue::Number(*n),
        RibValue::String(s) => RibValue::String(text::copy_of(s.as_str())),
        RibValue::Numbers(v) => RibValue::Numbers(to_vector(v.as_slice())),
        RibValue::Strings(v) => RibValue::Strings(copy_strings(v)),
    }
}

/// A value with its question answered; `None` where there is no answer to it.
fn settle_value(v: &DraftValue, answers: &Vec<(Sum, u64)>) -> (r: Option<RibValue>)
    ensures
        r is Some <==> (question(v@) matches Some(q) ==> answer_to(answers@, q) is Some),
        r matches Some(w) ==> w@ == settled_value(v@, answers@),
{
    match v {
        DraftValue::Ready(v) => Some(copy_value(v)),
        DraftValue::Number(q) => match find_answer(answers, *q) {
            Some(n) => Some(RibValue::Number(n)),
            None => None,
        },
        DraftValue::Numbers(q) => match find_answer(answers, *q) {
            Some(n) => Some(RibValue::Numbers(one_number(n))),
            None => None,
        },
    }
}

fn settle_request(d: &Draft, answers: &Vec<(Sum, u64)>) -> (r: Option<RibRequest>)
    ensures
        r is Some <==> values_answered(d@.values, answers@),
        r matches Some(q) ==> q@ == settled_request(d@, answers@),
{
    let n: usize = d.values.len();
    let mut values: Vec<RibValue> = Vec::new();
    let mut i: usize = 0;
    while i < n
        invariant
            i <= n == d.values@.len(),
            values@.len() == i,
            forall|j: int|
                0 <= j < i ==> (question(#[trigger] d@.values[j]) matches Some(q) ==> answer_to(
                    answers@,
                    q,
                ) is Some),
            forall|j: int|
                0 <= j < i ==> (#[trigger] values@[j])@ == settled_value(d@.values[j], answers@),
        decreases n - i,
    {
        assert(d@.values[i as int] == d.values@[i as int]@);
        match settle_value(&d.values[i], answers) {
            Some(v) => values.push(v),
            None => {
                return None;
            },
        }
        i += 1;
    }
    let r: RibRequest = RibRequest { name: text::copy_of(d.name.as_str()), values };
    assert(r@.values =~= settled_request(d@, answers@).values);
    Some(r)
}

impl Translation {
    /// The questions that the drafts leave open, in their order.
    pub fn questions(&self) -> (r: Vec<Sum>)
        ensures
            r@ == open_questions(self@.drafts),
    {
        let mut out: Vec<Sum> = Vec::new();
        let n: usize = self.drafts.len();
        let ghost all = self@.drafts;
        let mut i: usize = 0;
        assert(all.take(0) =~= seq![]);
        while i < n
            invariant
                i <= n == self.drafts@.len(),
                all == self@.drafts,
                out@ == open_questions(all.take(i as int)),
            decreases n - i,
        {
            let d: &Draft = &self.drafts[i];
            let ghost before = out@;
            let m: usize = d.values.len();
            let mut j: usize = 0;
            proof {
                assert(all[i as int] == d@);
                assert(all.take(i + 1).drop_last() =~= all.take(i as int));
                assert(d@.values.take(0) =~= seq![]);
                assert(before + value_questions(d@.values.take(0)) =~= before);
            }
            while j < m
                invariant
                    j <= m == d.values@.len(),
                    out@ == before + value_questions(d@.values.take(j as int)),
                decreases m - j,
            {
                assert(d@.values.take(j + 1).drop_last() =~= d@.values.take(j as int));
                assert(d@.values[j as int] == d.values@[j as int]@);
                match &d.values[j] {
                    DraftValue::Ready(_) => {},
                    DraftValue::Number(q) => out.push(*q),
                    DraftValue::Numbers(q) => out.push(*q),
                }
                j += 1;
                assert(out@ =~= before + value_questions(d@.values.take(j as int)));
            }
            assert(d@.values.take(m as int) =~= d@.values);
            i += 1;
        }
        assert(all.take(n as int) =~= all);
        out
    }

    /// The requests with their questions answered; `None` where an answer is missing.
    pub fn settle(&self, answers: &Vec<(Sum, u64)>) -> (r: Option<Vec<RibRequest>>)
        ensures
            r is Some <==> all_answered(self@.drafts, answers@),
            r matches Some(requests) ==> ast::request_views(requests@) == settled(
                self@.drafts,
                answers@,
            ),
    {
        let n: usize = self.drafts.len();
        let mut out: Vec<RibRequest> = Vec::new();
        let mut i: usize = 0;
        while i < n
            invariant
                i <= n == self.drafts@.len(),
                out@.len() == i,
                forall|j: int|
                    0 <= j < i ==> values_answered((#[trigger] self@.drafts[j]).values, answers@),
                forall|j: int|
                    0 <= j < i ==> (#[trigger] out@[j])@ == settled_request(
                        self@.drafts[j],
                        answers@,
                    ),
            decreases n - i,
        {
            assert(self@.drafts[i as int] == self.drafts@[i as int]@);
            match settle_request(&self.drafts[i], answers) {
                Some(q) => out.push(q),
                None => {
                    return None;
                },
            }
            i += 1;
        }
        assert(ast::request_views(out@) =~= settled(self@.drafts, answers@));
        Some(out)
    }
}

proof fn questions_of_values(values: Seq<DraftValueView>, answers: Seq<(Sum, u64)>)
    requires
        forall|q: Sum| #[trigger]
            value_questions(values).contains(q) ==> answer_to(answers, q) is Some,
    ensures
        values_answered(values, answers),
    decreases values.len(),
{
    if values.len() > 0 {
        let before = value_questions(values.drop_last());
        let all = value_questions(values);
        assert forall|q: Sum| #[trigger] before.contains(q) implies answer_to(answers, q) is Some by {
            let k = choose|k: int| 0 <= k < before.len() && before[k] == q;
            assert(all[k] == q);
            assert(all.contains(q));
        }
        questions_of_values(values.drop_last(), answers);
        assert forall|i: int| 0 <= i < values.len() implies (question(
            #[trigger] values[i],
        ) matches Some(q) ==> answer_to(answers, q) is Some) by {
            if i < values.len() - 1 {
                assert(values.drop_last()[i] == values[i]);
            } else if let Some(q) = question(values[i]) {
                assert(all[before.len() as int] == q);
                assert(all.contains(q));
            }
        }
    }
}

/// Drafts can be settled with an answer to each of their questions.
pub proof fn answers_suffice(drafts: Seq<DraftView>, answers: Seq<(Sum, u64)>)
    requires
        forall|q: Sum| #[trigger]
            open_questions(drafts).contains(q) ==> answer_to(answers, q) is Some,
    ensures
        all_answered(drafts, answers),
    decreases drafts.len(),
{
    if drafts.len() > 0 {
        let before = open_questions(drafts.drop_last());
        let last = value_questions(drafts.last().values);
        let all = open_questions(drafts);
        assert forall|q: Sum| #[trigger] before.contains(q) implies answer_to(answers, q) is Some by {
            let k = choose|k: int| 0 <= k < before.len() && before[k] == q;
            assert(all[k] == q);
            assert(all.contains(q));
        }
        assert forall|q: Sum| #[trigger] last.contains(q) implies answer_to(answers, q) is Some by {
            let k = choose|k: int| 0 <= k < last.len() && last[k] == q;
            assert(all[before.len() + k] == q);
            assert(all.contains(q));
        }
        answers_suffice(drafts.drop_last(), answers);
        questions_of_values(drafts.last().values, answers);
        assert forall|i: int| 0 <= i < drafts.len() implies values_answered(
            (#[trigger] drafts[i]).values,
            answers,
        ) by {
            if i < drafts.len() - 1 {
                assert(drafts.drop_last()[i] == drafts[i]);
            }
        }
    }
}

// ---- the blocks of a translation balance -----------------------------------

/// How many blocks are open after these drafts, if `open` were before; none where more are
/// closed than are open.
pub open spec fn open_blocks(drafts: Seq<DraftView>, open: int) -> Option<int>
    decreases drafts.len(),
{
    if drafts.len() == 0 {
        Some(open)
    } else {
        match open_blocks(drafts.drop_last(), open) {
            Some(n) => if drafts.last().name == "AttributeBegin"@ {
                Some(n + 1)
            } else if drafts.last().name == "AttributeEnd"@ {
                if n > 0 {
                    Some(n - 1)
                } else {
                    None
                }
            } else {
                Some(n)
            },
            None => None,
        }
    }
}

/// Whether these drafts close every block that they open, and no other.
pub open spec fn is_balanced(drafts: Seq<DraftView>) -> bool {
    forall|n: int| 0 <= n ==> #[trigger] open_blocks(drafts, n) == Some(n)
}

proof fn open_blocks_joined(a: Seq<DraftView>, b: Seq<DraftView>, open: int)
    ensures
        open_blocks(a + b, open) == match open_blocks(a, open) {
            Some(n) => open_blocks(b, n),
            None => None,
        },
    decreases b.len(),
{
    if b.len() == 0 {
        assert(a + b =~= a);
    } else {
        assert((a + b).drop_last() =~= a + b.drop_last());
        open_blocks_joined(a, b.drop_last(), open);
    }
}

proof fn balanced_joined(a: Seq<DraftView>, b: Seq<DraftView>)
    requires
        is_balanced(a),
        is_balanced(b),
    ensures
        is_balanced(a + b),
{
    assert forall|n: int| 0 <= n implies #[trigger] open_blocks(a + b, n) == Some(n) by {
        open_blocks_joined(a, b, n);
        assert(open_blocks(a, n) == Some(n));
        assert(open_blocks(b, n) == Some(n));
    }
}

/// Whether a name opens or closes a block.
spec fn is_block_name(name: Seq<char>) -> bool {
    name == "AttributeBegin"@ || name == "AttributeEnd"@
}

proof fn plain_is_balanced(drafts: Seq<DraftView>)
    requires
        forall|i: int| 0 <= i < drafts.len() ==> !is_block_name((#[trigger] drafts[i]).name),
    ensures
        is_balanced(drafts),
    decreases drafts.len(),
{
    if drafts.len() > 0 {
        let before = drafts.drop_last();
        assert forall|i: int| 0 <= i < before.len() implies !is_block_name(
            (#[trigger] before[i]).name,
        ) by {
            assert(before[i] == drafts[i]);
        }
        plain_is_balanced(before);
        assert(!is_block_name(drafts[drafts.len() - 1].name));
        assert forall|n: int| 0 <= n implies #[trigger] open_blocks(drafts, n) == Some(n) by {
            assert(open_blocks(before, n) == Some(n));
        }
    }
}

proof fn names_differ()
    ensures
        "AttributeBegin"@ != "AttributeEnd"@,
        !is_block_name("Translate"@),
        !is_block_name("Scale"@),
        !is_block_name("Rotate"@),
        !is_block_name("ConcatTransform"@),
        !is_block_name("Bxdf"@),
        !is_block_name("Light"@),
        !is_block_name("PointsPolygons"@),
        !is_block_name("Sphere"@),
{
    reveal_strlit("AttributeBegin");
    reveal_strlit("AttributeEnd");
    reveal_strlit("Translate");
    reveal_strlit("Scale");
    reveal_strlit("Rotate");
    reveal_strlit("ConcatTransform");
    reveal_strlit("Bxdf");
    reveal_strlit("Light");
    reveal_strlit("PointsPolygons");
    reveal_strlit("Sphere");
    assert("AttributeBegin"@.len() == 14);
    assert("AttributeEnd"@.len() == 12);
    assert("Translate"@.len() == 9);
    assert("Scale"@.len() == 5);
    assert("Rotate"@.len() == 6);
    assert("ConcatTransform"@.len() == 15);
    assert("Bxdf"@.len() == 4);
    assert("Light"@.len() == 5);
    assert("Sphere"@.len() == 6);
    assert("PointsPolygons"@.len() == 14);
    assert("PointsPolygons"@[0] == 'P');
    assert("AttributeBegin"@[0] == 'A');
}

proof fn ops_are_balanced(ops: Seq<Seq<char>>, attrs: Seq<(Seq<char>, UsdView)>)
    ensures
        is_balanced(ops_out(ops, attrs).drafts),
    decreases ops.len(),
{
    names_differ();
    if ops.len() == 0 {
        plain_is_balanced(seq![]);
    } else {
        ops_are_balanced(ops.drop_last(), attrs);
        let base = without_bangs(ops.last());
        let own = match attr_numbers(attrs, base) {
            Some(v) => op_out(base, v).drafts,
            None => seq![],
        };
        plain_is_balanced(own);
        balanced_joined(ops_out(ops.drop_last(), attrs).drafts, own);
    }
}

proof fn own_is_balanced(prims: Seq<PrimView>, i: int)
    ensures
        is_balanced(own_out(prims, i).drafts),
{
    names_differ();
    let p = prims[i];
    let a = ops_out(op_order(p.attrs), p.attrs).drafts;
    let b = material_out(prims, p.attrs).drafts;
    let c = light_out(p).drafts;
    let d = geometry_out(p).drafts;
    ops_are_balanced(op_order(p.attrs), p.attrs);
    plain_is_balanced(b);
    plain_is_balanced(c);
    plain_is_balanced(d);
    balanced_joined(a, b);
    balanced_joined(a + b, c);
    balanced_joined(a + b + c, d);
}

/// Every block that the translation of prims opens it closes, in order.
pub proof fn blocks_balance(prims: Seq<PrimView>, from: int, to: int)
    ensures
        is_balanced(walk_out(prims, from, to).drafts),
    decreases to - from,
{
    if !(0 <= from < to <= prims.len()) || prims[from].size < 1 || from + prims[from].size > to {
        plain_is_balanced(seq![]);
    } else {
        let end = from + prims[from].size;
        blocks_balance(prims, end, to);
        let rest = walk_out(prims, end, to).drafts;
        if is_passed_over(prims[from].kind) {
            plain_is_balanced(seq![]);
            balanced_joined(seq![], rest);
        } else {
            blocks_balance(prims, from + 1, end);
            own_is_balanced(prims, from);
            names_differ();
            let begin = seq![bare("AttributeBegin"@)];
            let close = seq![bare("AttributeEnd"@)];
            let inner = own_out(prims, from).drafts + walk_out(prims, from + 1, end).drafts;
            balanced_joined(own_out(prims, from).drafts, walk_out(prims, from + 1, end).drafts);
            let block = begin + inner + close;
            assert forall|n: int| 0 <= n implies #[trigger] open_blocks(block, n) == Some(n) by {
                open_blocks_joined(begin + inner, close, n);
                open_blocks_joined(begin, inner, n);
                let none = Seq::<DraftView>::empty();
                assert(begin.drop_last() =~= none && close.drop_last() =~= none);
                assert(open_blocks(none, n) == Some(n) && open_blocks(none, n + 1) == Some(n + 1));
                assert(begin.last().name == "AttributeBegin"@);
                assert(close.last().name == "AttributeEnd"@);
                assert(open_blocks(begin, n) == Some(n + 1));
                assert(open_blocks(inner, n + 1) == Some(n + 1));
                assert(open_blocks(close, n + 1) == Some(n));
            }
            balanced_joined(block, rest);
            assert(walk_out(prims, from, to).drafts =~= block + rest);
        }
    }
}

} // verus!
