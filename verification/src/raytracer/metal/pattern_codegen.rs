//! Kernel code for the pattern node graph. Each node becomes a function, and the bound
//! fields of each material an assignment from one; every texture the graph references is
//! packed, all mip levels, into one flat buffer with a per-mip offset table.

use crate::double;
use crate::math::Vec3;
use crate::parser::scene::Wrap;
use crate::raytracer::flatten;
use crate::text;
use crate::text::{push_decimal, push_text};
use vstd::prelude::*;
use vstd::string::*;

verus! {

/// The text that std's `Debug` gives for the single with these bits.
pub uninterp spec fn single_debug(bits: u32) -> Seq<char>;

/// std's `Debug` for the single-precision number that `nom::number::complete::be_f32`
/// reads from these bits. Only the name of the text is claimed.
#[verifier::external_body]
fn debug_single(bits: u32) -> (s: String)
    ensures
        s@ == single_debug(bits),
{
    let bytes = bits.to_be_bytes();
    match nom::number::complete::be_f32::<&[u8], nom::error::Error<&[u8]>>(&bytes[..]) {
        Ok((_, v)) => format!("{v:?}"),
        Err(_) => String::new(),
    }
}

// ---- texts -----------------------------------------------------------------

/// Texts one after the other.
pub open spec fn cat(parts: Seq<Seq<char>>) -> Seq<char>
    decreases parts.len(),
{
    if parts.len() == 0 {
        seq![]
    } else {
        cat(parts.drop_last()) + parts.last()
    }
}

pub open spec fn str_views(v: Seq<&str>) -> Seq<Seq<char>> {
    v.map_values(|s: &str| s@)
}

/// Texts one after the other.
fn join(parts: &Vec<&str>) -> (r: String)
    ensures
        r@ == cat(str_views(parts@)),
{
    let ghost all = str_views(parts@);
    let n: usize = parts.len();
    let mut out: String = String::new();
    let mut i: usize = 0;
    assert(all.take(0) =~= seq![]);
    while i < n
        invariant
            i <= n == parts@.len(),
            all == str_views(parts@),
            out@ == cat(all.take(i as int)),
        decreases n - i,
    {
        push_text(&mut out, parts[i]);
        proof {
            assert(all.take(i + 1).drop_last() =~= all.take(i as int));
            assert(all.take(i + 1).last() == parts@[i as int]@);
        }
        i += 1;
    }
    assert(all.take(n as int) =~= all);
    out
}

/// A number in decimal digits.
fn digits(n: u64) -> (r: String)
    ensures
        r@ == text::decimal(n as nat),
{
    let mut out: String = String::new();
    push_decimal(&mut out, n);
    assert(out@ =~= text::decimal(n as nat));
    out
}

/// Whether a text holds a decimal point or an exponent.
pub open spec fn is_fractional(s: Seq<char>) -> bool {
    s.contains('.') || s.contains('e')
}

/// A single as the kernel language writes it: always with a point or an exponent.
pub open spec fn literal(v: u64) -> Seq<char> {
    let s = single_debug(double::narrowed(v));
    if is_fractional(s) {
        s + "f"@
    } else {
        s + ".0f"@
    }
}

/// A single as the kernel language writes it.
fn f(v: u64) -> (r: String)
    ensures
        r@ == literal(v),
{
    let mut s: String = debug_single(double::narrow(v));
    let chars: Vec<char> = text::chars_of(s.as_str());
    let n: usize = chars.len();
    let mut i: usize = 0;
    let mut fractional: bool = false;
    while i < n
        invariant
            i <= n == chars@.len(),
            fractional <==> exists|k: int|
                0 <= k < i && (#[trigger] chars@[k] == '.' || chars@[k] == 'e'),
        decreases n - i,
    {
        if chars[i] == '.' || chars[i] == 'e' {
            fractional = true;
        }
        i += 1;
    }
    proof {
        if fractional {
            let k = choose|k: int| 0 <= k < n && (#[trigger] chars@[k] == '.' || chars@[k] == 'e');
            assert(chars@[k] == '.' || chars@[k] == 'e');
        }
        if is_fractional(chars@) {
            if chars@.contains('.') {
                let k = choose|k: int| 0 <= k < n && chars@[k] == '.';
                assert(chars@[k] == '.');
            } else {
                let k = choose|k: int| 0 <= k < n && chars@[k] == 'e';
                assert(chars@[k] == 'e');
            }
        }
        assert(fractional == is_fractional(s@));
    }
    if fractional {
        push_text(&mut s, "f");
    } else {
        push_text(&mut s, ".0f");
    }
    s
}

/// A vector as the kernel language writes it.
pub open spec fn literal3(v: Vec3) -> Seq<char> {
    cat(seq!["float3("@, literal(v.x), ", "@, literal(v.y), ", "@, literal(v.z), ")"@])
}

fn f3(v: &Vec3) -> (r: String)
    ensures
        r@ == literal3(*v),
{
    let (x, y, z): (String, String, String) = (f(v.x), f(v.y), f(v.z));
    let parts: Vec<&str> = vec![
        "float3(",
        x.as_str(),
        ", ",
        y.as_str(),
        ", ",
        z.as_str(),
        ")",
    ];
    assert(str_views(parts@) =~= seq![
        "float3("@,
        literal(v.x),
        ", "@,
        literal(v.y),
        ", "@,
        literal(v.z),
        ")"@,
    ]);
    join(&parts)
}

// ---- the graph -------------------------------------------------------------

/// The texture of a node: one, one per UDIM tile (in the order of the tiles), or none
/// that could be found.
#[derive(Debug)]
pub enum TexRef {
    Single(u32),
    Udim(Vec<(u32, u32)>),
    Missing,
}

/// What a texture reference is.
pub enum TexRefView {
    Single(u32),
    Udim(Seq<(u32, u32)>),
    Missing,
}

impl View for TexRef {
    type V = TexRefView;

    open spec fn view(&self) -> TexRefView {
        match *self {
            TexRef::Single(id) => TexRefView::Single(id),
            TexRef::Udim(tiles) => TexRefView::Udim(tiles@),
            TexRef::Missing => TexRefView::Missing,
        }
    }
}

/// An input of a node: a constant, or what another node gives.
#[derive(Clone, Copy, Debug, PartialEq, Eq, Structural)]
pub enum NodeInput {
    Const(Vec3),
    Node(u32),
}

/// A node of the pattern graph.
#[derive(Debug)]
pub enum GraphNode {
    Texture { tex: TexRef, wrap: Wrap, scale: (u64, u64) },
    Checker { color_a: Vec3, color_b: Vec3, scale: (u64, u64) },
    Fractal { frequency: u64, octaves: u32, gain: u64, lacunarity: u64 },
    Mix { color1: NodeInput, color2: NodeInput, mix: NodeInput },
    ColorCorrect { input: NodeInput, gain: Vec3, offset: Vec3, gamma: u64, saturation: u64 },
    Ramp { positions: Vec<u64>, colors: Vec<Vec3>, use_t: bool },
    Triplanar { tex: TexRef, wrap: Wrap, frequency: u64 },
}

/// Where one mip level stands in the packed texture buffer.
#[derive(Clone, Copy, Debug, PartialEq, Eq, Structural)]
pub struct GpuTexMip {
    /// Index (in floats) of this level's first channel.
    pub offset: u32,
    pub width: u32,
    pub height: u32,
    pub pad: u32,
}

/// Where the levels of a texture stand in the table.
#[derive(Clone, Copy, Debug, PartialEq, Eq, Structural)]
pub struct TexEntry {
    pub id: u32,
    pub mip_start: u32,
    pub mip_count: u32,
    pub base_w: u32,
    pub base_h: u32,
}

/// One mip level: its size and its pixels.
#[derive(Debug)]
pub struct MipLevel {
    pub width: u32,
    pub height: u32,
    pub pixels: Vec<u32>,
}

/// A texture with its levels.
#[derive(Debug)]
pub struct TexImage {
    pub width: u32,
    pub height: u32,
    pub levels: Vec<MipLevel>,
}

/// The packed textures.
pub struct TableView {
    pub data: Seq<u32>,
    pub mips: Seq<GpuTexMip>,
    pub entries: Seq<TexEntry>,
}

/// The table with levels of one texture added.
pub open spec fn with_levels(t: TableView, levels: Seq<MipLevel>) -> TableView
    decreases levels.len(),
{
    if levels.len() == 0 {
        t
    } else {
        let b = with_levels(t, levels.drop_last());
        let l = levels.last();
        TableView {
            data: b.data + l.pixels@,
            mips: b.mips.push(
                GpuTexMip {
                    offset: b.data.len() as u32,
                    width: l.width,
                    height: l.height,
                    pad: 0,
                },
            ),
            entries: b.entries,
        }
    }
}

/// The entry of a texture: the first with its id.
pub open spec fn entry_of(entries: Seq<TexEntry>, id: u32) -> Option<TexEntry>
    decreases entries.len(),
{
    if entries.len() == 0 {
        None
    } else if entries[0].id == id {
        Some(entries[0])
    } else {
        entry_of(entries.drop_first(), id)
    }
}

/// The table with one texture more, unless it is there already.
pub open spec fn with_texture(t: TableView, id: u32, image: TexImage) -> TableView {
    if entry_of(t.entries, id) is Some {
        t
    } else {
        let b = with_levels(t, image.levels@);
        TableView {
            data: b.data,
            mips: b.mips,
            entries: t.entries.push(
                TexEntry {
                    id,
                    mip_start: t.mips.len() as u32,
                    mip_count: image.levels@.len() as u32,
                    base_w: image.width,
                    base_h: image.height,
                },
            ),
        }
    }
}

/// The table of these textures, in their order. An id is a place among the images.
pub open spec fn packed_table(images: Seq<TexImage>, ids: Seq<u32>) -> TableView
    decreases ids.len(),
{
    if ids.len() == 0 {
        TableView { data: seq![], mips: seq![], entries: seq![] }
    } else {
        with_texture(
            packed_table(images, ids.drop_last()),
            ids.last(),
            images[ids.last() as int],
        )
    }
}

/// The textures that a node samples, in the order of its tiles.
pub open spec fn node_textures(n: GraphNode) -> Seq<u32> {
    match n {
        GraphNode::Texture { tex, .. } => ref_textures(tex@),
        GraphNode::Triplanar { tex, .. } => ref_textures(tex@),
        _ => seq![],
    }
}

/// The textures behind a reference.
pub open spec fn ref_textures(tex: TexRefView) -> Seq<u32> {
    match tex {
        TexRefView::Single(id) => seq![id],
        TexRefView::Udim(tiles) => tiles.map_values(|t: (u32, u32)| t.1),
        TexRefView::Missing => seq![],
    }
}

/// The textures that a graph samples, node after node.
pub open spec fn graph_textures(nodes: Seq<GraphNode>) -> Seq<u32>
    decreases nodes.len(),
{
    if nodes.len() == 0 {
        seq![]
    } else {
        graph_textures(nodes.drop_last()) + node_textures(nodes.last())
    }
}

// ---- kernel code -----------------------------------------------------------

pub open spec fn wrap_number(w: Wrap) -> nat {
    match w {
        Wrap::Periodic => 0,
        Wrap::Clamp => 1,
        Wrap::Black => 2,
    }
}

fn wrap_code(w: Wrap) -> (r: u64)
    ensures
        r == wrap_number(w),
{
    match w {
        Wrap::Periodic => 0,
        Wrap::Clamp => 1,
        Wrap::Black => 2,
    }
}

/// The entry of a texture, or one of zeros where it has none.
pub open spec fn entry_or_zero(entries: Seq<TexEntry>, id: u32) -> TexEntry {
    match entry_of(entries, id) {
        Some(e) => e,
        None => TexEntry { id, mip_start: 0, mip_count: 0, base_w: 0, base_h: 0 },
    }
}

/// A call that samples one texture. The image is flipped: `t` goes up.
pub open spec fn sample_call(
    entries: Seq<TexEntry>,
    id: u32,
    wrap: Wrap,
    s: Seq<char>,
    t: Seq<char>,
    fp: Seq<char>,
) -> Seq<char> {
    let e = entry_or_zero(entries, id);
    cat(
        seq![
            "tex_sample(td, tm, "@,
            text::decimal(e.mip_start as nat),
            "u, "@,
            text::decimal(e.mip_count as nat),
            "u, "@,
            text::decimal(e.base_w as nat),
            "u, "@,
            text::decimal(e.base_h as nat),
            "u, "@,
            s,
            ", (1.0f - ("@,
            t,
            ")), "@,
            fp,
            ", "@,
            text::decimal(wrap_number(wrap)),
            "u)"@,
        ],
    )
}

/// The choices among the first `n` tiles.
pub open spec fn tile_choices(
    entries: Seq<TexEntry>,
    tiles: Seq<(u32, u32)>,
    wrap: Wrap,
    fp: Seq<char>,
    n: int,
) -> Seq<char>
    decreases n,
{
    if n <= 0 {
        seq![]
    } else {
        cat(
            seq![
                tile_choices(entries, tiles, wrap, fp, n - 1),
                " if (_tile == "@,
                text::decimal(tiles[n - 1].0 as nat),
                ") _r = "@,
                sample_call(
                    entries,
                    tiles[n - 1].1,
                    wrap,
                    "(_us - _sc)"@,
                    "(_ut - _tc)"@,
                    fp,
                ),
                ";"@,
            ],
        )
    }
}

/// An expression that samples a node's texture: the one there is, the tile that the
/// coordinates fall into, or a glaring colour.
pub open spec fn sample_text(
    entries: Seq<TexEntry>,
    tex: TexRefView,
    wrap: Wrap,
    s: Seq<char>,
    t: Seq<char>,
    fp: Seq<char>,
) -> Seq<char> {
    match tex {
        TexRefView::Single(id) => sample_call(entries, id, wrap, s, t, fp),
        TexRefView::Missing => "float3(1.0f, 0.0f, 1.0f)"@,
        TexRefView::Udim(tiles) => cat(
            seq![
                "({ float _us = "@,
                s,
                "; float _ut = "@,
                t,
                "; float _sc = clamp(floor(_us), 0.0f, 9.0f); float _tc = max(floor(_ut), 0.0f); int _tile = 1001 + (int)_sc + 10 * (int)_tc; float3 _r = float3(1.0f, 0.0f, 1.0f);"@,
                tile_choices(entries, tiles, wrap, fp, tiles.len() as int),
                " _r; })"@,
            ],
        ),
    }
}

/// An input of a node.
pub open spec fn input_text(i: NodeInput) -> Seq<char> {
    match i {
        NodeInput::Const(c) => literal3(c),
        NodeInput::Node(n) => call_text(n as nat),
    }
}

/// A call of a node's function.
pub open spec fn call_text(n: nat) -> Seq<char> {
    cat(seq!["pat_node_"@, text::decimal(n), "(st, P, N, fp, td, tm)"@])
}

/// The larger of two scales, without signs.
pub open spec fn larger_scale(scale: (u64, u64)) -> u64 {
    double::greater(double::magnitude(scale.0), double::magnitude(scale.1))
}

pub open spec fn texture_body(
    entries: Seq<TexEntry>,
    tex: TexRefView,
    wrap: Wrap,
    scale: (u64, u64),
) -> Seq<char> {
    let s = scaled_text("(st.x * "@, scale.0);
    let t = scaled_text("(st.y * "@, scale.1);
    let fp = scaled_text("(fp * "@, larger_scale(scale));
    cat(seq!["return "@, sample_text(entries, tex, wrap, s, t, fp), ";"@])
}

pub open spec fn checker_body(a: Vec3, b: Vec3, scale: (u64, u64)) -> Seq<char> {
    cat(
        seq![
            "float fs = st.x * "@,
            literal(scale.0),
            "; float ft = st.y * "@,
            literal(scale.1),
            ";\n    int cell = ((int)floor(fs) + (int)floor(ft)) & 1;\n    float3 sharp = cell == 0 ? "@,
            literal3(a),
            " : "@,
            literal3(b),
            ";\n    float3 mean = ("@,
            literal3(a),
            " + "@,
            literal3(b),
            ") * 0.5f;\n    float w = min(fp * "@,
            literal(larger_scale(scale)),
            ", 1.0f);\n    return sharp * (1.0f - w) + mean * w;"@,
        ],
    )
}

pub open spec fn fractal_body(frequency: u64, octaves: u32, gain: u64, lacunarity: u64) -> Seq<
    char,
> {
    let count = if octaves == 0 {
        1
    } else {
        octaves as nat
    };
    cat(
        seq![
            "float v = clamp(pat_fbm(P, "@,
            literal(frequency),
            ", "@,
            text::decimal(count),
            "u, "@,
            literal(gain),
            ", "@,
            literal(lacunarity),
            ") * 0.5f + 0.5f, 0.0f, 1.0f);\n    return float3(v, v, v);"@,
        ],
    )
}

pub open spec fn mix_body(a: NodeInput, b: NodeInput, m: NodeInput) -> Seq<char> {
    cat(
        seq![
            "float3 a = "@,
            input_text(a),
            ";\n    float3 b = "@,
            input_text(b),
            ";\n    float m = clamp("@,
            input_text(m),
            ".x, 0.0f, 1.0f);\n    return a * (1.0f - m) + b * m;"@,
        ],
    )
}

pub open spec fn correct_body(
    input: NodeInput,
    gain: Vec3,
    offset: Vec3,
    gamma: u64,
    saturation: u64,
) -> Seq<char> {
    cat(
        seq![
            "float3 c = "@,
            input_text(input),
            ";\n    float g = 1.0f / max("@,
            literal(gamma),
            ", 1e-6f);\n    float3 o = pow(max(c * "@,
            literal3(gain),
            " + "@,
            literal3(offset),
            ", 0.0f), float3(g));\n    float lum = 0.2126f * o.x + 0.7152f * o.y + 0.0722f * o.z;\n    return float3(lum) + (o - float3(lum)) * "@,
            literal(saturation),
            ";"@,
        ],
    )
}

/// The steps of a ramp between its first `n` knots.
pub open spec fn ramp_steps(positions: Seq<u64>, colors: Seq<Vec3>, n: int) -> Seq<char>
    decreases n,
{
    if n <= 1 {
        seq![]
    } else {
        let i = n - 1;
        cat(
            seq![
                ramp_steps(positions, colors, i),
                "    if (x <= "@,
                literal(positions[i]),
                ") { float a = (x - "@,
                literal(positions[i - 1]),
                ") / max("@,
                literal(positions[i]),
                " - "@,
                literal(positions[i - 1]),
                ", 1e-9f); return "@,
                literal3(colors[i - 1]),
                " * (1.0f - a) + "@,
                literal3(colors[i]),
                " * a; }\n"@,
            ],
        )
    }
}

/// How many knots have both a position and a colour.
pub open spec fn knot_count(positions: Seq<u64>, colors: Seq<Vec3>) -> int {
    if positions.len() < colors.len() {
        positions.len() as int
    } else {
        colors.len() as int
    }
}

pub open spec fn ramp_body(positions: Seq<u64>, colors: Seq<Vec3>, use_t: bool) -> Seq<char> {
    let axis = if use_t {
        "st.y"@
    } else {
        "st.x"@
    };
    let head = cat(seq!["float x = clamp("@, axis, ", 0.0f, 1.0f);\n"@]);
    if colors.len() == 0 {
        cat(seq![head, "    return float3(1.0f, 0.0f, 1.0f);"@])
    } else {
        cat(
            seq![
                head,
                "    if (x <= "@,
                literal(positions[0]),
                ") return "@,
                literal3(colors[0]),
                ";\n"@,
                ramp_steps(positions, colors, knot_count(positions, colors)),
                "    return "@,
                literal3(colors.last()),
                ";"@,
            ],
        )
    }
}

/// A coordinate times a frequency.
pub open spec fn scaled_text(coordinate: Seq<char>, frequency: u64) -> Seq<char> {
    cat(seq![coordinate, literal(frequency), ")"@])
}

pub open spec fn triplanar_body(
    entries: Seq<TexEntry>,
    tex: TexRefView,
    wrap: Wrap,
    frequency: u64,
) -> Seq<char> {
    let x = scaled_text("(P.x * "@, frequency);
    let y = scaled_text("(P.y * "@, frequency);
    let z = scaled_text("(P.z * "@, frequency);
    cat(
        seq![
            "float3 an = fabs(N);\n    float total = max(an.x + an.y + an.z, 1e-9f);\n    float3 w = an / total;\n    float3 cx = "@,
            sample_text(entries, tex, wrap, y, z, "fp"@),
            ";\n    float3 cy = "@,
            sample_text(entries, tex, wrap, z, x, "fp"@),
            ";\n    float3 cz = "@,
            sample_text(entries, tex, wrap, x, y, "fp"@),
            ";\n    return cx * w.x + cy * w.y + cz * w.z;"@,
        ],
    )
}

/// The body of a node's function.
pub open spec fn node_body(entries: Seq<TexEntry>, n: GraphNode) -> Seq<char> {
    match n {
        GraphNode::Texture { tex, wrap, scale } => texture_body(entries, tex@, wrap, scale),
        GraphNode::Checker { color_a, color_b, scale } => checker_body(color_a, color_b, scale),
        GraphNode::Fractal { frequency, octaves, gain, lacunarity } => fractal_body(
            frequency,
            octaves,
            gain,
            lacunarity,
        ),
        GraphNode::Mix { color1, color2, mix } => mix_body(color1, color2, mix),
        GraphNode::ColorCorrect { input, gain, offset, gamma, saturation } => correct_body(
            input,
            gain,
            offset,
            gamma,
            saturation,
        ),
        GraphNode::Ramp { positions, colors, use_t } => ramp_body(positions@, colors@, use_t),
        GraphNode::Triplanar { tex, wrap, frequency } => triplanar_body(
            entries,
            tex@,
            wrap,
            frequency,
        ),
    }
}

/// The function of a node.
pub open spec fn node_text(entries: Seq<TexEntry>, index: nat, n: GraphNode) -> Seq<char> {
    cat(
        seq![
            "static float3 pat_node_"@,
            text::decimal(index),
            "(float2 st, float3 P, float3 N, float fp,\n                           device const float* td, device const TexMipG* tm) {\n    "@,
            node_body(entries, n),
            "\n}\n"@,
        ],
    )
}

/// A field of a material that a pattern can drive.
#[derive(Clone, Copy, Debug, PartialEq, Eq, Structural)]
pub enum BoundField {
    DiffuseColor,
    DiffuseGain,
    DiffuseRoughness,
    SpecularFaceColor,
    SpecularEdgeColor,
    SpecularRoughness,
    ClearcoatGain,
    FuzzGain,
    FuzzColor,
    GlassGain,
    GlassRoughness,
    RefractionColor,
    Glow,
    Presence,
}

/// A colour of the kernel's material assigned from a node.
pub open spec fn color_assignment(field: Seq<char>, v: Seq<char>) -> Seq<char> {
    cat(
        seq![
            "float3 v = "@,
            v,
            "; m."@,
            field,
            "[0] = v.x; m."@,
            field,
            "[1] = v.y; m."@,
            field,
            "[2] = v.z;"@,
        ],
    )
}

/// A number of the kernel's material assigned from a node.
pub open spec fn number_assignment(field: Seq<char>, v: Seq<char>) -> Seq<char> {
    cat(seq!["m."@, field, " = "@, v, ".x;"@])
}

/// A roughness: the kernel keeps its square.
pub open spec fn roughness_assignment(field: Seq<char>, v: Seq<char>) -> Seq<char> {
    cat(
        seq![
            "float r = clamp("@,
            v,
            ".x, 0.005f, 1.0f); m."@,
            field,
            " = clamp(r * r, 2.5e-5f, 1.0f);"@,
        ],
    )
}

/// The assignment of a field from a node.
pub open spec fn assignment(field: BoundField, node: u32) -> Seq<char> {
    let v = call_text(node as nat);
    match field {
        BoundField::DiffuseColor => color_assignment("diffuse_color"@, v),
        BoundField::DiffuseGain => number_assignment("diffuse_gain"@, v),
        BoundField::DiffuseRoughness => number_assignment("diffuse_sigma"@, v),
        BoundField::SpecularFaceColor => color_assignment("spec_f0"@, v),
        BoundField::SpecularEdgeColor => color_assignment("spec_f90"@, v),
        BoundField::SpecularRoughness => roughness_assignment("spec_alpha"@, v),
        BoundField::ClearcoatGain => number_assignment("coat_gain"@, v),
        BoundField::FuzzGain => number_assignment("fuzz_gain"@, v),
        BoundField::FuzzColor => color_assignment("fuzz_color"@, v),
        BoundField::GlassGain => number_assignment("glass_gain"@, v),
        BoundField::GlassRoughness => roughness_assignment("glass_alpha"@, v),
        BoundField::RefractionColor => color_assignment("refr_color"@, v),
        BoundField::Glow => color_assignment("emission"@, v),
        BoundField::Presence => cat(seq!["m.presence = clamp("@, v, ".x, 0.0f, 1.0f);"@]),
    }
}

/// The assignments of these bindings.
pub open spec fn assignments(bindings: Seq<(BoundField, u32)>) -> Seq<char>
    decreases bindings.len(),
{
    if bindings.len() == 0 {
        seq![]
    } else {
        cat(
            seq![
                assignments(bindings.drop_last()),
                "        { "@,
                assignment(bindings.last().0, bindings.last().1),
                " }\n"@,
            ],
        )
    }
}

/// The cases of the first `n` materials; one without bindings has none.
pub open spec fn material_cases(materials: Seq<Seq<(BoundField, u32)>>, n: int) -> Seq<char>
    decreases n,
{
    if n <= 0 {
        seq![]
    } else {
        let before = material_cases(materials, n - 1);
        if materials[n - 1].len() == 0 {
            before
        } else {
            cat(
                seq![
                    before,
                    "    case "@,
                    text::decimal((n - 1) as nat),
                    "u: {\n"@,
                    assignments(materials[n - 1]),
                    "        pat_recompute_derived(m);\n        break;\n    }\n"@,
                ],
            )
        }
    }
}

/// Whether any material has a binding.
pub open spec fn any_bound(materials: Seq<Seq<(BoundField, u32)>>) -> bool {
    exists|i: int| 0 <= i < materials.len() && (#[trigger] materials[i]).len() > 0
}

/// The functions of the first `n` nodes.
pub open spec fn node_texts(entries: Seq<TexEntry>, nodes: Seq<GraphNode>, n: int) -> Seq<char>
    decreases n,
{
    if n <= 0 {
        seq![]
    } else {
        node_texts(entries, nodes, n - 1) + node_text(entries, (n - 1) as nat, nodes[n - 1])
    }
}

/// The code of a graph: a function for each node, and one that applies the bindings of
/// each material.
pub open spec fn graph_text(
    entries: Seq<TexEntry>,
    nodes: Seq<GraphNode>,
    materials: Seq<Seq<(BoundField, u32)>>,
) -> Seq<char> {
    let head =
        "static void apply_patterns(uint mat_id, thread PtMaterial& m,\n                          float2 st, float3 P, float3 N, float fp,\n                          device const float* td, device const TexMipG* tm) {\n"@;
    let tail = if any_bound(materials) {
        cat(
            seq![
                "    switch (mat_id) {\n"@,
                material_cases(materials, materials.len() as int),
                "    default: break;\n    }\n}\n"@,
            ],
        )
    } else {
        "    (void)mat_id; (void)m; (void)st; (void)P; (void)N; (void)fp; (void)td; (void)tm;\n}\n"@
    };
    cat(seq![node_texts(entries, nodes, nodes.len() as int), head, tail])
}

// ---- packing ---------------------------------------------------------------

/// The entry of a texture: the first with its id.
fn find_entry(entries: &Vec<TexEntry>, id: u32) -> (r: Option<TexEntry>)
    ensures
        r == entry_of(entries@, id),
{
    let n: usize = entries.len();
    let mut i: usize = 0;
    assert(entries@.skip(0) =~= entries@);
    while i < n
        invariant
            i <= n == entries@.len(),
            entry_of(entries@, id) == entry_of(entries@.skip(i as int), id),
        decreases n - i,
    {
        let e: TexEntry = entries[i];
        assert(entries@.skip(i as int)[0] == e);
        if e.id == id {
            return Some(e);
        }
        assert(entries@.skip(i as int).drop_first() =~= entries@.skip(i + 1));
        i += 1;
    }
    None
}

/// What the device gets of a pattern graph.
#[derive(Debug)]
pub struct PatternGpu {
    /// The channels of every level, row by row.
    pub tex_data: Vec<u32>,
    pub tex_mips: Vec<GpuTexMip>,
    /// The generated functions.
    pub msl: String,
}

/// The packed textures and where each stands.
struct Table {
    data: Vec<u32>,
    mips: Vec<GpuTexMip>,
    entries: Vec<TexEntry>,
}

impl View for Table {
    type V = TableView;

    closed spec fn view(&self) -> TableView {
        TableView { data: self.data@, mips: self.mips@, entries: self.entries@ }
    }
}

impl Table {
    /// Adds the levels of a texture.
    fn add_levels(&mut self, levels: &Vec<MipLevel>)
        ensures
            final(self)@ == with_levels(old(self)@, levels@),
    {
        let ghost before = self@;
        let n: usize = levels.len();
        let mut k: usize = 0;
        assert(levels@.take(0).len() == 0);
        while k < n
            invariant
                k <= n == levels@.len(),
                self@ == with_levels(before, levels@.take(k as int)),
            decreases n - k,
        {
            let level: &MipLevel = &levels[k];
            let offset: u32 = #[verifier::truncate] (self.data.len() as u32);
            self.mips.push(
                GpuTexMip { offset, width: level.width, height: level.height, pad: 0 },
            );
            self.data.extend_from_slice(level.pixels.as_slice());
            proof {
                assert(levels@.take(k + 1).drop_last() =~= levels@.take(k as int));
                assert(levels@.take(k + 1).last() == levels@[k as int]);
                let after = with_levels(before, levels@.take(k + 1));
                assert(self.data@ =~= after.data);
                assert(self.mips@ =~= after.mips);
            }
            k += 1;
        }
        assert(levels@.take(n as int) =~= levels@);
    }

    /// Adds a texture, unless it is there already.
    fn add_texture(&mut self, id: u32, image: &TexImage)
        ensures
            final(self)@ == with_texture(old(self)@, id, *image),
    {
        if find_entry(&self.entries, id).is_some() {
            return;
        }
        let ghost before = self@;
        let mip_start: u32 = #[verifier::truncate] (self.mips.len() as u32);
        self.add_levels(&image.levels);
        proof {
            levels_keep_entries(before, image.levels@);
        }
        let mip_count: u32 = #[verifier::truncate] (image.levels.len() as u32);
        self.entries.push(
            TexEntry { id, mip_start, mip_count, base_w: image.width, base_h: image.height },
        );
    }
}

/// Adding levels adds no entry.
proof fn levels_keep_entries(t: TableView, levels: Seq<MipLevel>)
    ensures
        with_levels(t, levels).entries == t.entries,
    decreases levels.len(),
{
    if levels.len() > 0 {
        levels_keep_entries(t, levels.drop_last());
    }
}

/// The textures behind a reference, one after the other.
fn list_textures(tex: &TexRef, out: &mut Vec<u32>)
    ensures
        final(out)@ == old(out)@ + ref_textures(tex@),
{
    let ghost before = out@;
    match tex {
        TexRef::Single(id) => {
            out.push(*id);
            assert(out@ =~= before + seq![*id]);
        },
        TexRef::Udim(tiles) => {
            let ghost ids = tiles@.map_values(|t: (u32, u32)| t.1);
            let n: usize = tiles.len();
            let mut i: usize = 0;
            assert(out@ =~= before + ids.take(0));
            while i < n
                invariant
                    i <= n == tiles@.len(),
                    ids == tiles@.map_values(|t: (u32, u32)| t.1),
                    out@ == before + ids.take(i as int),
                decreases n - i,
            {
                out.push(tiles[i].1);
                i += 1;
                assert(out@ =~= before + ids.take(i as int));
            }
            assert(ids.take(n as int) =~= ids);
        },
        TexRef::Missing => {
            assert(out@ =~= before + Seq::<u32>::empty());
        },
    }
}

/// The textures that a graph samples, node after node.
fn list_graph_textures(nodes: &Vec<GraphNode>) -> (r: Vec<u32>)
    ensures
        r@ == graph_textures(nodes@),
{
    let n: usize = nodes.len();
    let mut out: Vec<u32> = Vec::new();
    let mut i: usize = 0;
    assert(nodes@.take(0).len() == 0);
    while i < n
        invariant
            i <= n == nodes@.len(),
            out@ == graph_textures(nodes@.take(i as int)),
        decreases n - i,
    {
        match &nodes[i] {
            GraphNode::Texture { tex, .. } => list_textures(tex, &mut out),
            GraphNode::Triplanar { tex, .. } => list_textures(tex, &mut out),
            _ => {},
        }
        proof {
            assert(nodes@.take(i + 1).drop_last() =~= nodes@.take(i as int));
            assert(nodes@.take(i + 1).last() == nodes@[i as int]);
            assert(out@ =~= graph_textures(nodes@.take(i + 1)));
        }
        i += 1;
    }
    assert(nodes@.take(n as int) =~= nodes@);
    out
}

/// Whether the images hold every texture that the graph samples.
pub open spec fn has_images(nodes: Seq<GraphNode>, images: Seq<TexImage>) -> bool {
    forall|k: int|
        0 <= k < graph_textures(nodes).len() ==> (#[trigger] graph_textures(nodes)[k])
            < images.len()
}

/// Packs every texture that the graph samples.
fn build_texture_table(nodes: &Vec<GraphNode>, images: &Vec<TexImage>) -> (r: Table)
    requires
        has_images(nodes@, images@),
    ensures
        r@ == packed_table(images@, graph_textures(nodes@)),
{
    let ids: Vec<u32> = list_graph_textures(nodes);
    let n: usize = ids.len();
    let mut table: Table = Table { data: Vec::new(), mips: Vec::new(), entries: Vec::new() };
    let mut i: usize = 0;
    proof {
        assert(ids@.take(0).len() == 0);
        let none = packed_table(images@, ids@.take(0));
        assert(table.data@ =~= none.data);
        assert(table.mips@ =~= none.mips);
        assert(table.entries@ =~= none.entries);
    }
    while i < n
        invariant
            i <= n == ids@.len(),
            ids@ == graph_textures(nodes@),
            has_images(nodes@, images@),
            table@ == packed_table(images@, ids@.take(i as int)),
        decreases n - i,
    {
        let id: u32 = ids[i];
        assert(graph_textures(nodes@)[i as int] < images@.len());
        table.add_texture(id, &images[id as usize]);
        proof {
            assert(ids@.take(i + 1).drop_last() =~= ids@.take(i as int));
            assert(ids@.take(i + 1).last() == id);
        }
        i += 1;
    }
    assert(ids@.take(n as int) =~= ids@);
    table
}

// ---- emitting --------------------------------------------------------------

/// A call that samples one texture.
fn emit_one(entries: &Vec<TexEntry>, id: u32, wrap: Wrap, s: &str, t: &str, fp: &str) -> (r: String)
    ensures
        r@ == sample_call(entries@, id, wrap, s@, t@, fp@),
{
    let e: TexEntry = match find_entry(entries, id) {
        Some(e) => e,
        None => TexEntry { id, mip_start: 0, mip_count: 0, base_w: 0, base_h: 0 },
    };
    let start: String = digits(e.mip_start as u64);
    let count: String = digits(e.mip_count as u64);
    let w: String = digits(e.base_w as u64);
    let h: String = digits(e.base_h as u64);
    let code: String = digits(wrap_code(wrap));
    let parts: Vec<&str> = vec![
        "tex_sample(td, tm, ",
        start.as_str(),
        "u, ",
        count.as_str(),
        "u, ",
        w.as_str(),
        "u, ",
        h.as_str(),
        "u, ",
        s,
        ", (1.0f - (",
        t,
        ")), ",
        fp,
        ", ",
        code.as_str(),
        "u)",
    ];
    assert(str_views(parts@) =~= seq![
        "tex_sample(td, tm, "@,
        text::decimal(e.mip_start as nat),
        "u, "@,
        text::decimal(e.mip_count as nat),
        "u, "@,
        text::decimal(e.base_w as nat),
        "u, "@,
        text::decimal(e.base_h as nat),
        "u, "@,
        s@,
        ", (1.0f - ("@,
        t@,
        ")), "@,
        fp@,
        ", "@,
        text::decimal(wrap_number(wrap)),
        "u)"@,
    ]);
    join(&parts)
}

/// The choices among the tiles.
fn emit_tiles(
    entries: &Vec<TexEntry>,
    tiles: &Vec<(u32, u32)>,
    wrap: Wrap,
    fp: &str,
) -> (r: String)
    ensures
        r@ == tile_choices(entries@, tiles@, wrap, fp@, tiles@.len() as int),
{
    let n: usize = tiles.len();
    let mut out: String = String::new();
    let mut i: usize = 0;
    while i < n
        invariant
            i <= n == tiles@.len(),
            out@ == tile_choices(entries@, tiles@, wrap, fp@, i as int),
        decreases n - i,
    {
        let (tile, id): (u32, u32) = tiles[i];
        let number: String = digits(tile as u64);
        let call: String = emit_one(entries, id, wrap, "(_us - _sc)", "(_ut - _tc)", fp);
        let parts: Vec<&str> = vec![
            out.as_str(),
            " if (_tile == ",
            number.as_str(),
            ") _r = ",
            call.as_str(),
            ";",
        ];
        assert(str_views(parts@) =~= seq![
            out@,
            " if (_tile == "@,
            text::decimal(tile as nat),
            ") _r = "@,
            sample_call(entries@, id, wrap, "(_us - _sc)"@, "(_ut - _tc)"@, fp@),
            ";"@,
        ]);
        let longer: String = join(&parts);
        out = longer;
        i += 1;
    }
    out
}

/// An expression that samples a node's texture.
fn emit_tex_sample(
    entries: &Vec<TexEntry>,
    tex: &TexRef,
    wrap: Wrap,
    s: &str,
    t: &str,
    fp: &str,
) -> (r: String)
    ensures
        r@ == sample_text(entries@, tex@, wrap, s@, t@, fp@),
{
    match tex {
        TexRef::Single(id) => emit_one(entries, *id, wrap, s, t, fp),
        TexRef::Missing => text::copy_of("float3(1.0f, 0.0f, 1.0f)"),
        TexRef::Udim(tiles) => {
            let choices: String = emit_tiles(entries, tiles, wrap, fp);
            let parts: Vec<&str> = vec![
                "({ float _us = ",
                s,
                "; float _ut = ",
                t,
                "; float _sc = clamp(floor(_us), 0.0f, 9.0f); float _tc = max(floor(_ut), 0.0f); int _tile = 1001 + (int)_sc + 10 * (int)_tc; float3 _r = float3(1.0f, 0.0f, 1.0f);",
                choices.as_str(),
                " _r; })",
            ];
            assert(str_views(parts@) =~= seq![
                "({ float _us = "@,
                s@,
                "; float _ut = "@,
                t@,
                "; float _sc = clamp(floor(_us), 0.0f, 9.0f); float _tc = max(floor(_ut), 0.0f); int _tile = 1001 + (int)_sc + 10 * (int)_tc; float3 _r = float3(1.0f, 0.0f, 1.0f);"@,
                tile_choices(entries@, tiles@, wrap, fp@, tiles@.len() as int),
                " _r; })"@,
            ]);
            join(&parts)
        },
    }
}

/// A call of a node's function.
fn emit_call(n: u32) -> (r: String)
    ensures
        r@ == call_text(n as nat),
{
    let number: String = digits(n as u64);
    let parts: Vec<&str> = vec![
        "pat_node_",
        number.as_str(),
        "(st, P, N, fp, td, tm)",
    ];
    assert(str_views(parts@) =~= seq![
        "pat_node_"@,
        text::decimal(n as nat),
        "(st, P, N, fp, td, tm)"@,
    ]);
    join(&parts)
}

/// An input of a node.
fn emit_input(input: &NodeInput) -> (r: String)
    ensures
        r@ == input_text(*input),
{
    match input {
        NodeInput::Const(c) => f3(c),
        NodeInput::Node(n) => emit_call(*n),
    }
}

/// The larger of two scales, without signs.
fn scale_max(scale: (u64, u64)) -> (r: u64)
    ensures
        r == larger_scale(scale),
{
    let half: u64 = 0x8000_0000_0000_0000;
    double::larger_of(scale.0 % half, scale.1 % half)
}

/// A coordinate times a factor.
fn times(coordinate: &str, factor: u64) -> (r: String)
    ensures
        r@ == scaled_text(coordinate@, factor),
{
    let v: String = f(factor);
    let parts: Vec<&str> = vec![
        coordinate,
        v.as_str(),
        ")",
    ];
    assert(str_views(parts@) =~= seq![
        coordinate@,
        literal(factor),
        ")"@,
    ]);
    join(&parts)
}

/// The body of a texture node.
fn emit_texture(entries: &Vec<TexEntry>, tex: &TexRef, wrap: Wrap, scale: (u64, u64)) -> (r: String)
    ensures
        r@ == texture_body(entries@, tex@, wrap, scale),
{
    let s: String = times("(st.x * ", scale.0);
    let t: String = times("(st.y * ", scale.1);
    let fp: String = times("(fp * ", scale_max(scale));
    let call: String = emit_tex_sample(entries, tex, wrap, s.as_str(), t.as_str(), fp.as_str());
    let parts: Vec<&str> = vec![
        "return ",
        call.as_str(),
        ";",
    ];
    assert(str_views(parts@) =~= seq![
        "return "@,
        sample_text(entries@, tex@, wrap, s@, t@, fp@),
        ";"@,
    ]);
    join(&parts)
}

/// The body of a checker node.
fn emit_checker(a: &Vec3, b: &Vec3, scale: (u64, u64)) -> (r: String)
    ensures
        r@ == checker_body(*a, *b, scale),
{
    let (sx, sy): (String, String) = (f(scale.0), f(scale.1));
    let (ca, cb): (String, String) = (f3(a), f3(b));
    let smax: String = f(scale_max(scale));
    let parts: Vec<&str> = vec![
        "float fs = st.x * ",
        sx.as_str(),
        "; float ft = st.y * ",
        sy.as_str(),
        ";\n    int cell = ((int)floor(fs) + (int)floor(ft)) & 1;\n    float3 sharp = cell == 0 ? ",
        ca.as_str(),
        " : ",
        cb.as_str(),
        ";\n    float3 mean = (",
        ca.as_str(),
        " + ",
        cb.as_str(),
        ") * 0.5f;\n    float w = min(fp * ",
        smax.as_str(),
        ", 1.0f);\n    return sharp * (1.0f - w) + mean * w;",
    ];
    assert(str_views(parts@) =~= seq![
        "float fs = st.x * "@,
        literal(scale.0),
        "; float ft = st.y * "@,
        literal(scale.1),
        ";\n    int cell = ((int)floor(fs) + (int)floor(ft)) & 1;\n    float3 sharp = cell == 0 ? "@,
        literal3(*a),
        " : "@,
        literal3(*b),
        ";\n    float3 mean = ("@,
        literal3(*a),
        " + "@,
        literal3(*b),
        ") * 0.5f;\n    float w = min(fp * "@,
        literal(larger_scale(scale)),
        ", 1.0f);\n    return sharp * (1.0f - w) + mean * w;"@,
    ]);
    join(&parts)
}

/// The body of a fractal node.
fn emit_fractal(frequency: u64, octaves: u32, gain: u64, lacunarity: u64) -> (r: String)
    ensures
        r@ == fractal_body(frequency, octaves, gain, lacunarity),
{
    let count: u32 = if octaves == 0 { 1 } else { octaves };
    let (fr, n): (String, String) = (f(frequency), digits(count as u64));
    let (ga, la): (String, String) = (f(gain), f(lacunarity));
    let parts: Vec<&str> = vec![
        "float v = clamp(pat_fbm(P, ",
        fr.as_str(),
        ", ",
        n.as_str(),
        "u, ",
        ga.as_str(),
        ", ",
        la.as_str(),
        ") * 0.5f + 0.5f, 0.0f, 1.0f);\n    return float3(v, v, v);",
    ];
    assert(str_views(parts@) =~= seq![
        "float v = clamp(pat_fbm(P, "@,
        literal(frequency),
        ", "@,
        text::decimal(count as nat),
        "u, "@,
        literal(gain),
        ", "@,
        literal(lacunarity),
        ") * 0.5f + 0.5f, 0.0f, 1.0f);\n    return float3(v, v, v);"@,
    ]);
    join(&parts)
}

/// The body of a mix node.
fn emit_mix(a: &NodeInput, b: &NodeInput, m: &NodeInput) -> (r: String)
    ensures
        r@ == mix_body(*a, *b, *m),
{
    let x: String = emit_input(a);
    let y: String = emit_input(b);
    let z: String = emit_input(m);
    let parts: Vec<&str> = vec![
        "float3 a = ",
        x.as_str(),
        ";\n    float3 b = ",
        y.as_str(),
        ";\n    float m = clamp(",
        z.as_str(),
        ".x, 0.0f, 1.0f);\n    return a * (1.0f - m) + b * m;",
    ];
    assert(str_views(parts@) =~= seq![
        "float3 a = "@,
        input_text(*a),
        ";\n    float3 b = "@,
        input_text(*b),
        ";\n    float m = clamp("@,
        input_text(*m),
        ".x, 0.0f, 1.0f);\n    return a * (1.0f - m) + b * m;"@,
    ]);
    join(&parts)
}

/// The body of a colour correction.
fn emit_correct(input: &NodeInput, gain: &Vec3, offset: &Vec3, gamma: u64, saturation: u64) -> (r: String)
    ensures
        r@ == correct_body(*input, *gain, *offset, gamma, saturation),
{
    let (c, g): (String, String) = (emit_input(input), f(gamma));
    let (scale, add): (String, String) = (f3(gain), f3(offset));
    let sat: String = f(saturation);
    let parts: Vec<&str> = vec![
        "float3 c = ",
        c.as_str(),
        ";\n    float g = 1.0f / max(",
        g.as_str(),
        ", 1e-6f);\n    float3 o = pow(max(c * ",
        scale.as_str(),
        " + ",
        add.as_str(),
        ", 0.0f), float3(g));\n    float lum = 0.2126f * o.x + 0.7152f * o.y + 0.0722f * o.z;\n    return float3(lum) + (o - float3(lum)) * ",
        sat.as_str(),
        ";",
    ];
    assert(str_views(parts@) =~= seq![
        "float3 c = "@,
        input_text(*input),
        ";\n    float g = 1.0f / max("@,
        literal(gamma),
        ", 1e-6f);\n    float3 o = pow(max(c * "@,
        literal3(*gain),
        " + "@,
        literal3(*offset),
        ", 0.0f), float3(g));\n    float lum = 0.2126f * o.x + 0.7152f * o.y + 0.0722f * o.z;\n    return float3(lum) + (o - float3(lum)) * "@,
        literal(saturation),
        ";"@,
    ]);
    join(&parts)
}

/// The steps of a ramp.
fn emit_steps(positions: &Vec<u64>, colors: &Vec<Vec3>) -> (r: String)
    ensures
        r@ == ramp_steps(positions@, colors@, knot_count(positions@, colors@)),
{
    let n: usize = if positions.len() < colors.len() {
        positions.len()
    } else {
        colors.len()
    };
    let mut out: String = String::new();
    let mut i: usize = 1;
    while i < n
        invariant
            n == knot_count(positions@, colors@),
            1 <= i,
            i <= n || i == 1,
            out@ == ramp_steps(positions@, colors@, i as int),
        decreases n - i,
    {
        let (p0, p1): (String, String) = (f(positions[i - 1]), f(positions[i]));
        let (c0, c1): (String, String) = (f3(&colors[i - 1]), f3(&colors[i]));
        let parts: Vec<&str> = vec![
            out.as_str(),
            "    if (x <= ",
            p1.as_str(),
            ") { float a = (x - ",
            p0.as_str(),
            ") / max(",
            p1.as_str(),
            " - ",
            p0.as_str(),
            ", 1e-9f); return ",
            c0.as_str(),
            " * (1.0f - a) + ",
            c1.as_str(),
            " * a; }\n",
        ];
        assert(str_views(parts@) =~= seq![
            out@,
            "    if (x <= "@,
            literal(positions@[i as int]),
            ") { float a = (x - "@,
            literal(positions@[i - 1]),
            ") / max("@,
            literal(positions@[i as int]),
            " - "@,
            literal(positions@[i - 1]),
            ", 1e-9f); return "@,
            literal3(colors@[i - 1]),
            " * (1.0f - a) + "@,
            literal3(colors@[i as int]),
            " * a; }\n"@,
        ]);
        let longer: String = join(&parts);
        out = longer;
        i += 1;
    }
    out
}

/// The body of a ramp.
fn emit_ramp(positions: &Vec<u64>, colors: &Vec<Vec3>, use_t: bool) -> (r: String)
    requires
        colors@.len() > 0 ==> positions@.len() > 0,
    ensures
        r@ == ramp_body(positions@, colors@, use_t),
{
    let axis: &str = if use_t {
        "st.y"
    } else {
        "st.x"
    };
    let start: Vec<&str> = vec!["float x = clamp(", axis, ", 0.0f, 1.0f);\n"];
    assert(str_views(start@) =~= seq!["float x = clamp("@, axis@, ", 0.0f, 1.0f);\n"@]);
    let head: String = join(&start);
    if colors.len() == 0 {
        let parts: Vec<&str> = vec![head.as_str(), "    return float3(1.0f, 0.0f, 1.0f);"];
        assert(str_views(parts@) =~= seq![head@, "    return float3(1.0f, 0.0f, 1.0f);"@]);
        return join(&parts);
    }
    let (p, c): (String, String) = (f(positions[0]), f3(&colors[0]));
    let steps: String = emit_steps(positions, colors);
    let last: String = f3(&colors[colors.len() - 1]);
    let parts: Vec<&str> = vec![
        head.as_str(),
        "    if (x <= ",
        p.as_str(),
        ") return ",
        c.as_str(),
        ";\n",
        steps.as_str(),
        "    return ",
        last.as_str(),
        ";",
    ];
    assert(str_views(parts@) =~= seq![
        head@,
        "    if (x <= "@,
        literal(positions@[0]),
        ") return "@,
        literal3(colors@[0]),
        ";\n"@,
        ramp_steps(positions@, colors@, knot_count(positions@, colors@)),
        "    return "@,
        literal3(colors@.last()),
        ";"@,
    ]);
    join(&parts)
}

/// The body of a triplanar node.
fn emit_triplanar(entries: &Vec<TexEntry>, tex: &TexRef, wrap: Wrap, frequency: u64) -> (r: String)
    ensures
        r@ == triplanar_body(entries@, tex@, wrap, frequency),
{
    let x: String = times("(P.x * ", frequency);
    let y: String = times("(P.y * ", frequency);
    let z: String = times("(P.z * ", frequency);
    let cx: String = emit_tex_sample(entries, tex, wrap, y.as_str(), z.as_str(), "fp");
    let cy: String = emit_tex_sample(entries, tex, wrap, z.as_str(), x.as_str(), "fp");
    let cz: String = emit_tex_sample(entries, tex, wrap, x.as_str(), y.as_str(), "fp");
    let parts: Vec<&str> = vec![
        "float3 an = fabs(N);\n    float total = max(an.x + an.y + an.z, 1e-9f);\n    float3 w = an / total;\n    float3 cx = ",
        cx.as_str(),
        ";\n    float3 cy = ",
        cy.as_str(),
        ";\n    float3 cz = ",
        cz.as_str(),
        ";\n    return cx * w.x + cy * w.y + cz * w.z;",
    ];
    assert(str_views(parts@) =~= seq![
        "float3 an = fabs(N);\n    float total = max(an.x + an.y + an.z, 1e-9f);\n    float3 w = an / total;\n    float3 cx = "@,
        sample_text(entries@, tex@, wrap, y@, z@, "fp"@),
        ";\n    float3 cy = "@,
        sample_text(entries@, tex@, wrap, z@, x@, "fp"@),
        ";\n    float3 cz = "@,
        sample_text(entries@, tex@, wrap, x@, y@, "fp"@),
        ";\n    return cx * w.x + cy * w.y + cz * w.z;"@,
    ]);
    join(&parts)
}

/// Whether a ramp with colours has positions too.
pub open spec fn is_drawable(n: GraphNode) -> bool {
    n matches GraphNode::Ramp { positions, colors, .. } ==> colors@.len() > 0 ==> positions@.len()
        > 0
}

/// The body of a node's function.
fn emit_body(entries: &Vec<TexEntry>, node: &GraphNode) -> (r: String)
    requires
        is_drawable(*node),
    ensures
        r@ == node_body(entries@, *node),
{
    match node {
        GraphNode::Texture { tex, wrap, scale } => emit_texture(entries, tex, *wrap, *scale),
        GraphNode::Checker { color_a, color_b, scale } => emit_checker(color_a, color_b, *scale),
        GraphNode::Fractal { frequency, octaves, gain, lacunarity } => emit_fractal(
            *frequency,
            *octaves,
            *gain,
            *lacunarity,
        ),
        GraphNode::Mix { color1, color2, mix } => emit_mix(color1, color2, mix),
        GraphNode::ColorCorrect { input, gain, offset, gamma, saturation } => emit_correct(
            input,
            gain,
            offset,
            *gamma,
            *saturation,
        ),
        GraphNode::Ramp { positions, colors, use_t } => emit_ramp(positions, colors, *use_t),
        GraphNode::Triplanar { tex, wrap, frequency } => emit_triplanar(
            entries,
            tex,
            *wrap,
            *frequency,
        ),
    }
}

/// The function of a node.
fn emit_node(entries: &Vec<TexEntry>, index: usize, node: &GraphNode) -> (r: String)
    requires
        is_drawable(*node),
    ensures
        r@ == node_text(entries@, index as nat, *node),
{
    let number: String = digits(index as u64);
    let body: String = emit_body(entries, node);
    let parts: Vec<&str> = vec![
        "static float3 pat_node_",
        number.as_str(),
        "(float2 st, float3 P, float3 N, float fp,\n                           device const float* td, device const TexMipG* tm) {\n    ",
        body.as_str(),
        "\n}\n",
    ];
    assert(str_views(parts@) =~= seq![
        "static float3 pat_node_"@,
        text::decimal(index as nat),
        "(float2 st, float3 P, float3 N, float fp,\n                           device const float* td, device const TexMipG* tm) {\n    "@,
        node_body(entries@, *node),
        "\n}\n"@,
    ]);
    join(&parts)
}

/// A colour assigned from a node.
fn assign_color(field: &str, v: &str) -> (r: String)
    ensures
        r@ == color_assignment(field@, v@),
{
    let parts: Vec<&str> = vec![
        "float3 v = ",
        v,
        "; m.",
        field,
        "[0] = v.x; m.",
        field,
        "[1] = v.y; m.",
        field,
        "[2] = v.z;",
    ];
    assert(str_views(parts@) =~= seq![
        "float3 v = "@,
        v@,
        "; m."@,
        field@,
        "[0] = v.x; m."@,
        field@,
        "[1] = v.y; m."@,
        field@,
        "[2] = v.z;"@,
    ]);
    join(&parts)
}

/// A number assigned from a node.
fn assign_number(field: &str, v: &str) -> (r: String)
    ensures
        r@ == number_assignment(field@, v@),
{
    let parts: Vec<&str> = vec![
        "m.",
        field,
        " = ",
        v,
        ".x;",
    ];
    assert(str_views(parts@) =~= seq![
        "m."@,
        field@,
        " = "@,
        v@,
        ".x;"@,
    ]);
    join(&parts)
}

/// A roughness assigned from a node.
fn assign_roughness(field: &str, v: &str) -> (r: String)
    ensures
        r@ == roughness_assignment(field@, v@),
{
    let parts: Vec<&str> = vec![
        "float r = clamp(",
        v,
        ".x, 0.005f, 1.0f); m.",
        field,
        " = clamp(r * r, 2.5e-5f, 1.0f);",
    ];
    assert(str_views(parts@) =~= seq![
        "float r = clamp("@,
        v@,
        ".x, 0.005f, 1.0f); m."@,
        field@,
        " = clamp(r * r, 2.5e-5f, 1.0f);"@,
    ]);
    join(&parts)
}

/// The assignment of a field from a node.
fn assign(field: BoundField, node: u32) -> (r: String)
    ensures
        r@ == assignment(field, node),
{
    let call: String = emit_call(node);
    let v: &str = call.as_str();
    match field {
        BoundField::DiffuseColor => assign_color("diffuse_color", v),
        BoundField::DiffuseGain => assign_number("diffuse_gain", v),
        BoundField::DiffuseRoughness => assign_number("diffuse_sigma", v),
        BoundField::SpecularFaceColor => assign_color("spec_f0", v),
        BoundField::SpecularEdgeColor => assign_color("spec_f90", v),
        BoundField::SpecularRoughness => assign_roughness("spec_alpha", v),
        BoundField::ClearcoatGain => assign_number("coat_gain", v),
        BoundField::FuzzGain => assign_number("fuzz_gain", v),
        BoundField::FuzzColor => assign_color("fuzz_color", v),
        BoundField::GlassGain => assign_number("glass_gain", v),
        BoundField::GlassRoughness => assign_roughness("glass_alpha", v),
        BoundField::RefractionColor => assign_color("refr_color", v),
        BoundField::Glow => assign_color("emission", v),
        BoundField::Presence => {
            let parts: Vec<&str> = vec!["m.presence = clamp(", v, ".x, 0.0f, 1.0f);"];
            assert(str_views(parts@) =~= seq!["m.presence = clamp("@, v@, ".x, 0.0f, 1.0f);"@]);
            join(&parts)
        },
    }
}

/// The assignments of these bindings.
fn assign_all(bindings: &Vec<(BoundField, u32)>) -> (r: String)
    ensures
        r@ == assignments(bindings@),
{
    let n: usize = bindings.len();
    let mut out: String = String::new();
    let mut i: usize = 0;
    assert(bindings@.take(0).len() == 0);
    while i < n
        invariant
            i <= n == bindings@.len(),
            out@ == assignments(bindings@.take(i as int)),
        decreases n - i,
    {
        let (field, node): (BoundField, u32) = bindings[i];
        let a: String = assign(field, node);
        let parts: Vec<&str> = vec![out.as_str(), "        { ", a.as_str(), " }\n"];
        assert(str_views(parts@) =~= seq![
            out@,
            "        { "@,
            assignment(field, node),
            " }\n"@,
        ]);
        let longer: String = join(&parts);
        out = longer;
        proof {
            assert(bindings@.take(i + 1).drop_last() =~= bindings@.take(i as int));
            assert(bindings@.take(i + 1).last() == bindings@[i as int]);
        }
        i += 1;
    }
    assert(bindings@.take(n as int) =~= bindings@);
    out
}

/// The bindings of each material.
pub open spec fn binding_views(m: Seq<Vec<(BoundField, u32)>>) -> Seq<Seq<(BoundField, u32)>> {
    m.map_values(|v: Vec<(BoundField, u32)>| v@)
}

/// Whether any material has a binding.
fn has_bound(materials: &Vec<Vec<(BoundField, u32)>>) -> (r: bool)
    ensures
        r == any_bound(binding_views(materials@)),
{
    let n: usize = materials.len();
    let mut i: usize = 0;
    while i < n
        invariant
            i <= n == materials@.len(),
            forall|k: int|
                0 <= k < i ==> (#[trigger] binding_views(materials@)[k]).len() == 0,
        decreases n - i,
    {
        if materials[i].len() > 0 {
            assert(binding_views(materials@)[i as int].len() > 0);
            return true;
        }
        i += 1;
    }
    false
}

/// The cases of the materials.
fn emit_cases(materials: &Vec<Vec<(BoundField, u32)>>) -> (r: String)
    ensures
        r@ == material_cases(binding_views(materials@), materials@.len() as int),
{
    let n: usize = materials.len();
    let mut out: String = String::new();
    let mut i: usize = 0;
    while i < n
        invariant
            i <= n == materials@.len(),
            out@ == material_cases(binding_views(materials@), i as int),
        decreases n - i,
    {
        assert(binding_views(materials@)[i as int] == materials@[i as int]@);
        if materials[i].len() > 0 {
            let number: String = digits(i as u64);
            let body: String = assign_all(&materials[i]);
            let parts: Vec<&str> = vec![
                out.as_str(),
                "    case ",
                number.as_str(),
                "u: {\n",
                body.as_str(),
                "        pat_recompute_derived(m);\n        break;\n    }\n",
            ];
            assert(str_views(parts@) =~= seq![
                out@,
                "    case "@,
                text::decimal(i as nat),
                "u: {\n"@,
                assignments(materials@[i as int]@),
                "        pat_recompute_derived(m);\n        break;\n    }\n"@,
            ]);
            let longer: String = join(&parts);
            out = longer;
        }
        i += 1;
    }
    out
}

/// The functions of the nodes.
fn emit_nodes(entries: &Vec<TexEntry>, nodes: &Vec<GraphNode>) -> (r: String)
    requires
        forall|i: int| 0 <= i < nodes@.len() ==> is_drawable(#[trigger] nodes@[i]),
    ensures
        r@ == node_texts(entries@, nodes@, nodes@.len() as int),
{
    let n: usize = nodes.len();
    let mut out: String = String::new();
    let mut i: usize = 0;
    while i < n
        invariant
            i <= n == nodes@.len(),
            forall|i: int| 0 <= i < nodes@.len() ==> is_drawable(#[trigger] nodes@[i]),
            out@ == node_texts(entries@, nodes@, i as int),
        decreases n - i,
    {
        let one: String = emit_node(entries, i, &nodes[i]);
        push_text(&mut out, one.as_str());
        i += 1;
    }
    out
}

/// Packs the textures of a pattern graph and writes the code of its nodes and of the
/// materials that they drive. An image is found by the id of its texture.
pub fn build(
    nodes: &Vec<GraphNode>,
    images: &Vec<TexImage>,
    materials: &Vec<Vec<(BoundField, u32)>>,
) -> (r: PatternGpu)
    requires
        has_images(nodes@, images@),
        forall|i: int| 0 <= i < nodes@.len() ==> is_drawable(#[trigger] nodes@[i]),
    ensures
        ({
            let table = packed_table(images@, graph_textures(nodes@));
            &&& r.tex_data@ == table.data
            &&& r.tex_mips@ == table.mips
            &&& r.msl@ == graph_text(table.entries, nodes@, binding_views(materials@))
        }),
{
    let table: Table = build_texture_table(nodes, images);
    let functions: String = emit_nodes(&table.entries, nodes);
    let tail: String = if has_bound(materials) {
        let cases: String = emit_cases(materials);
        let parts: Vec<&str> = vec![
            "    switch (mat_id) {\n",
            cases.as_str(),
            "    default: break;\n    }\n}\n",
        ];
        assert(str_views(parts@) =~= seq![
            "    switch (mat_id) {\n"@,
            material_cases(binding_views(materials@), materials@.len() as int),
            "    default: break;\n    }\n}\n"@,
        ]);
        join(&parts)
    } else {
        text::copy_of(
            "    (void)mat_id; (void)m; (void)st; (void)P; (void)N; (void)fp; (void)td; (void)tm;\n}\n",
        )
    };
    let parts: Vec<&str> = vec![
        functions.as_str(),
        "static void apply_patterns(uint mat_id, thread PtMaterial& m,\n                          float2 st, float3 P, float3 N, float fp,\n                          device const float* td, device const TexMipG* tm) {\n",
        tail.as_str(),
    ];
    assert(str_views(parts@) =~= seq![
        functions@,
        "static void apply_patterns(uint mat_id, thread PtMaterial& m,\n                          float2 st, float3 P, float3 N, float fp,\n                          device const float* td, device const TexMipG* tm) {\n"@,
        tail@,
    ]);
    let msl: String = join(&parts);
    PatternGpu { tex_data: table.data, tex_mips: table.mips, msl }
}

// ---- laws ------------------------------------------------------------------

/// Every texture that was packed has an entry in the table.
pub proof fn packed_textures_are_found(images: Seq<TexImage>, ids: Seq<u32>)
    ensures
        forall|k: int|
            0 <= k < ids.len() ==> entry_of(packed_table(images, ids).entries, #[trigger] ids[k])
                is Some,
    decreases ids.len(),
{
    if ids.len() > 0 {
        let before = packed_table(images, ids.drop_last());
        let id = ids.last();
        let after = packed_table(images, ids);
        packed_textures_are_found(images, ids.drop_last());
        assert forall|k: int| 0 <= k < ids.len() implies entry_of(
            after.entries,
            #[trigger] ids[k],
        ) is Some by {
            if k < ids.len() - 1 {
                assert(ids.drop_last()[k] == ids[k]);
            }
            if entry_of(before.entries, id) is None {
                entry_stays(before.entries, after.entries.last(), ids[k]);
            }
        }
    }
}

/// An entry stays found when another is added behind it, and the added one is found.
proof fn entry_stays(entries: Seq<TexEntry>, e: TexEntry, id: u32)
    ensures
        entry_of(entries, id) is Some ==> entry_of(entries.push(e), id) == entry_of(entries, id),
        e.id == id ==> entry_of(entries.push(e), id) is Some,
    decreases entries.len(),
{
    if entries.len() > 0 {
        assert(entries.push(e).drop_first() =~= entries.drop_first().push(e));
        entry_stays(entries.drop_first(), e, id);
    }
}

} // verus!
