//! What requests set: the camera, the media, the surfaces and the sizes of what is thin, each as it
//! is given.

use crate::double;
use crate::geometry::subdivision_laws;
use crate::math;
use crate::math::matrix_laws;
use crate::math::Vec3;
use crate::near;
use crate::parser::ast;
use crate::parser::interpreter;
use crate::parser::interpreter::Graphics;
use crate::parser::kinds::RequestKind;
use crate::parser::request_laws;
use crate::parser::requests;
use crate::parser::scene::{
    AreaLight, DepthOfField, GraphicsState, Options, PrimitiveKind, Projection, ScreenWindow, Surface,
    Transform,
};
use crate::rounding;
use vstd::arithmetic::power2::*;
use vstd::prelude::*;
use vstd::string::*;

verus! {

// ---- the camera ------------------------------------------------------------

/// The shutter opens at the first number and closes at the second; a lens has its stop, its focal
/// length and its focal distance; and the window has its left, its right, its bottom and its top,
/// in this order. Nothing else changes with them.
pub proof fn cameras_are_set(
    g: Graphics,
    pool: Seq<ast::RequestView>,
    r: usize,
    depth: nat,
    n: Seq<u64>,
)
    requires
        request_laws::takes_effect(g),
        request_laws::starts_with_numbers(pool[r as int], n),
    ensures
        ({
            let h = interpreter::request_read(g, pool, r, depth).0;
            let kind = interpreter::kind_at(pool, r);
            &&& kind is Shutter && n.len() == 2 ==> h == (Graphics {
                options: (Options { shutter_open: n[0], shutter_close: n[1], ..g.options }),
                ..g
            })
            &&& kind is DepthOfField && n.len() == 3 ==> h == (Graphics {
                options: (Options {
                    depth_of_field: Some(
                        DepthOfField { fstop: n[0], focal_length: n[1], focal_distance: n[2] },
                    ),
                    ..g.options
                }),
                ..g
            })
            &&& kind is ScreenWindow && n.len() == 4 ==> h == (Graphics {
                options: (Options {
                    screen_window: Some(
                        ScreenWindow { left: n[0], right: n[1], bottom: n[2], top: n[3] },
                    ),
                    ..g.options
                }),
                ..g
            })
        }),
{
    let q = pool[r as int];
    reveal(interpreter::request_read);
    reveal(interpreter::request_done);
    reveal(interpreter::processed);
    reveal(interpreter::processed_here);
    reveal(interpreter::option_applied);
    if n.len() >= 2 {
        assert(q.values[0] == ast::ValueView::Number(n[0]));
        assert(q.values[1] == ast::ValueView::Number(n[1]));
    }
    if n.len() >= 3 {
        assert(q.values[2] == ast::ValueView::Number(n[2]));
    }
    if n.len() >= 4 {
        assert(q.values[3] == ast::ValueView::Number(n[3]));
    }
}

/// A perspective view has the angle that it is given, or the one of before; an orthographic one
/// has none of its own.
pub proof fn projections_are_set(
    g: Graphics,
    pool: Seq<ast::RequestView>,
    r: usize,
    depth: nat,
    fov: u64,
)
    requires
        request_laws::takes_effect(g),
        interpreter::kind_at(pool, r) is Projection,
    ensures
        ({
            let q = pool[r as int];
            let h = interpreter::request_read(g, pool, r, depth).0;
            &&& q.text(0) == Some("perspective"@) && (request_laws::gives(
                q,
                1,
                "fov"@,
                ast::ValueView::Numbers(seq![fov]),
            ) || (request_laws::lacks(q, 1, "fov"@) && fov == g.options.fov)) ==> h == (Graphics {
                options: (Options { projection: Projection::Perspective, fov, ..g.options }),
                ..g
            })
            &&& q.text(0) == Some("orthographic"@) ==> h == (Graphics {
                options: (Options { projection: Projection::Orthographic, ..g.options }),
                ..g
            })
        }),
{
    let q = pool[r as int];
    reveal(interpreter::request_read);
    reveal(interpreter::request_done);
    reveal(interpreter::processed);
    reveal(interpreter::processed_here);
    reveal(interpreter::option_applied);
    reveal_strlit("fov");
    reveal_strlit("perspective");
    reveal_strlit("orthographic");
    assert("perspective"@.len() == 11 && "orthographic"@.len() == 12);
    request_laws::parameters_are_found(q, 1, "fov"@);
}

// ---- media -----------------------------------------------------------------

/// A medium absorbs, scatters and glows as it is said to. One of an interior fills what follows;
/// one of an atmosphere fills the scene.
pub proof fn media_are_as_they_are_given(
    g: Graphics,
    pool: Seq<ast::RequestView>,
    r: usize,
    depth: nat,
    absorbed: Vec3,
    scattered: Vec3,
    glow: Vec3,
    forwards: u64,
)
    requires
        request_laws::takes_effect(g),
        interpreter::kind_at(pool, r) is Interior || interpreter::kind_at(pool, r) is Atmosphere,
        g.media.len() < 0xffff_ffff,
        request_laws::gives(pool[r as int], 1, "sigma_a"@, request_laws::triple(absorbed)),
        request_laws::gives(pool[r as int], 1, "sigma_s"@, request_laws::triple(scattered)),
        request_laws::gives(pool[r as int], 1, "emission"@, request_laws::triple(glow)),
        request_laws::gives(pool[r as int], 1, "g"@, ast::ValueView::Numbers(seq![forwards])),
    ensures
        ({
            let h = interpreter::request_read(g, pool, r, depth).0;
            let m = h.media.last();
            &&& h.media.len() == g.media.len() + 1
            &&& h.media.drop_last() == g.media
            &&& m.sigma_a == absorbed
            &&& m.sigma_s == scattered
            &&& m.emission == glow
            &&& m.g == forwards
            &&& interpreter::kind_at(pool, r) is Interior ==> h.state.interior == Some(
                g.media.len() as u32,
            ) && h.atmosphere == g.atmosphere
            &&& interpreter::kind_at(pool, r) is Atmosphere ==> h.atmosphere == Some(
                g.media.len() as u32,
            ) && h.state.interior == g.state.interior
        }),
{
    let q = pool[r as int];
    reveal(interpreter::request_read);
    reveal(interpreter::request_done);
    reveal(interpreter::processed);
    reveal(interpreter::processed_here);
    reveal(interpreter::medium_applied);
    reveal_strlit("sigma_a");
    reveal_strlit("sigma_s");
    reveal_strlit("emission");
    reveal_strlit("g");
    request_laws::parameters_are_found(q, 1, "sigma_a"@);
    request_laws::parameters_are_found(q, 1, "sigma_s"@);
    request_laws::parameters_are_found(q, 1, "emission"@);
    request_laws::parameters_are_found(q, 1, "g"@);
    let h = interpreter::request_read(g, pool, r, depth).0;
    assert(h.media.drop_last() =~= g.media);
}

/// A medium that says how far it reaches reaches that far. One of an atmosphere that does not ends
/// at twelve hundred, and one of an interior does not end.
pub proof fn media_reach_as_far_as_they_say(q: ast::RequestView, far: u64)
    ensures
        request_laws::gives(q, 1, "maxdistance"@, ast::ValueView::Numbers(seq![far])) ==> (forall|
            kind: RequestKind,
        |
            (#[trigger] interpreter::medium_of(q, kind)).max_distance == far),
        request_laws::lacks(q, 1, "maxdistance"@) ==> (forall|kind: RequestKind|
            kind is Atmosphere ==> matrix_laws::is_count(
                (#[trigger] interpreter::medium_of(q, kind)).max_distance,
                1200,
            )),
        request_laws::lacks(q, 1, "maxdistance"@) ==> (forall|kind: RequestKind|
            !(kind is Atmosphere) ==> rounding::is_infinite(
                (#[trigger] interpreter::medium_of(q, kind)).max_distance,
            )),
{
    reveal_strlit("maxdistance");
    request_laws::parameters_are_found(q, 1, "maxdistance"@);
    let b = 0x4092_c000_0000_0000u64;
    lemma2_to64();
    lemma2_to64_rest();
    assert(double::exponent_field(b) == 1033);
    assert(double::significand(b) == 0x12_c000_0000_0000);
    lemma_pow2_adds(42, 1032);
    let p = pow2(1032) as int;
    assert(0x12_c000_0000_0000 * p == 1200 * (0x400_0000_0000 * p)) by (nonlinear_arith);
}

// ---- surfaces --------------------------------------------------------------

/// A classic surface is of the shader that it names, and as rough as it says; what glows has its
/// strength and its colour.
pub proof fn surfaces_are_set(
    g: Graphics,
    pool: Seq<ast::RequestView>,
    r: usize,
    depth: nat,
    v: u64,
    c: Vec3,
)
    requires
        request_laws::takes_effect(g),
    ensures
        ({
            let q = pool[r as int];
            let h = interpreter::request_read(g, pool, r, depth).0;
            let kind = interpreter::kind_at(pool, r);
            &&& kind is Surface && request_laws::gives(
                q,
                1,
                "roughness"@,
                ast::ValueView::Numbers(seq![v]),
            ) ==> (q.text(0) == Some("matte"@) ==> h == (Graphics {
                state: (GraphicsState { surface: Surface::Matte, roughness: v, ..g.state }),
                ..g
            })) && (q.text(0) == Some("plastic"@) ==> h == (Graphics {
                state: (GraphicsState { surface: Surface::Plastic, roughness: v, ..g.state }),
                ..g
            })) && (q.text(0) == Some("metal"@) ==> h == (Graphics {
                state: (GraphicsState { surface: Surface::Metal, roughness: v, ..g.state }),
                ..g
            }))
            &&& kind is AreaLightSource && request_laws::gives(
                q,
                request_laws::light_start(q),
                "intensity"@,
                ast::ValueView::Numbers(seq![v]),
            ) && request_laws::gives(
                q,
                request_laws::light_start(q),
                "lightcolor"@,
                request_laws::triple(c),
            ) ==> h == (Graphics {
                state: (GraphicsState {
                    area_light: Some(AreaLight { intensity: v, color: c }),
                    ..g.state
                }),
                ..g
            })
        }),
{
    let q = pool[r as int];
    reveal(interpreter::request_read);
    reveal(interpreter::request_done);
    reveal(interpreter::processed);
    reveal(interpreter::processed_here);
    reveal(interpreter::attribute_applied);
    reveal_strlit("roughness");
    reveal_strlit("intensity");
    reveal_strlit("lightcolor");
    reveal_strlit("matte");
    reveal_strlit("plastic");
    reveal_strlit("metal");
    assert("matte"@.len() == 5 && "plastic"@.len() == 7 && "metal"@.len() == 5);
    assert("matte"@[1] == 'a' && "metal"@[1] == 'e');
    request_laws::parameters_are_found(q, 1, "roughness"@);
    request_laws::parameters_are_found(q, request_laws::light_start(q), "intensity"@);
    request_laws::parameters_are_found(q, request_laws::light_start(q), "lightcolor"@);
}

/// A displacement is as strong, as fine and as rough as it is said to be, from where it is said to
/// start.
pub proof fn displacements_are_set(
    g: Graphics,
    pool: Seq<ast::RequestView>,
    r: usize,
    depth: nat,
    amplitude: u64,
    frequency: u64,
    gain: u64,
    lacunarity: u64,
    offset: Vec3,
)
    requires
        request_laws::takes_effect(g),
        interpreter::kind_at(pool, r) is Displace,
        ({
            let q = pool[r as int];
            let s = request_laws::light_start(q);
            &&& request_laws::gives(q, s, "amplitude"@, ast::ValueView::Numbers(seq![amplitude]))
            &&& request_laws::gives(q, s, "frequency"@, ast::ValueView::Numbers(seq![frequency]))
            &&& request_laws::gives(q, s, "gain"@, ast::ValueView::Numbers(seq![gain]))
            &&& request_laws::gives(q, s, "lacunarity"@, ast::ValueView::Numbers(seq![lacunarity]))
            &&& request_laws::gives(q, s, "offset"@, request_laws::triple(offset))
        }),
    ensures
        ({
            let h = interpreter::request_read(g, pool, r, depth).0;
            h.state.displace matches Some(d) && d.amplitude == amplitude && d.frequency == frequency
                && d.gain == gain && d.lacunarity == lacunarity && d.offset == offset
        }),
{
    let q = pool[r as int];
    let s = request_laws::light_start(q);
    reveal(interpreter::request_read);
    reveal(interpreter::request_done);
    reveal(interpreter::processed);
    reveal(interpreter::processed_here);
    reveal(interpreter::attribute_applied);
    reveal_strlit("amplitude");
    reveal_strlit("frequency");
    reveal_strlit("gain");
    reveal_strlit("lacunarity");
    reveal_strlit("offset");
    request_laws::parameters_are_found(q, s, "amplitude"@);
    request_laws::parameters_are_found(q, s, "frequency"@);
    request_laws::parameters_are_found(q, s, "gain"@);
    request_laws::parameters_are_found(q, s, "lacunarity"@);
    request_laws::parameters_are_found(q, s, "offset"@);
}

// ---- bodies of lights ------------------------------------------------------

/// Whether a corner of a square lies a half from its middle, along x and along y.
pub open spec fn is_half_off(v: Vec3) -> bool {
    &&& near::gap(2 * near::exact(v.x), 0) == rounding::whole()
    &&& near::gap(2 * near::exact(v.y), 0) == rounding::whole()
    &&& near::exact(v.z) == 0
}

/// How a triangle in the plane of x and y turns: above nothing where it is seen from above.
pub open spec fn turning(a: Vec3, b: Vec3, c: Vec3) -> int {
    (near::exact(b.x) - near::exact(a.x)) * (near::exact(c.y) - near::exact(a.y)) - (near::exact(b.y)
        - near::exact(a.y)) * (near::exact(c.x) - near::exact(a.x))
}

/// The body of a light is of unit size in the space of the light: a whole sphere, or a disk, one
/// across about the origin; or a square, one by one, of two triangles that are seen from above.
pub proof fn light_bodies_are_of_unit_size(q: ast::RequestView, r: usize, t: Transform)
    ensures
        q.text(0) == Some("PxrSphereLight"@) ==> ({
            let b = (interpreter::modern_light(q, r, t)->0).1;
            b.len() == 1 && (b[0] matches PrimitiveKind::Sphere { radius, zmin, zmax, thetamax } && 2
                * near::exact(radius) == rounding::whole() && near::exact(zmin) == -near::exact(radius)
                && near::exact(zmax) == near::exact(radius) && thetamax == interpreter::FULL_CIRCLE)
        }),
        q.text(0) == Some("PxrDiskLight"@) ==> ({
            let b = (interpreter::modern_light(q, r, t)->0).1;
            b.len() == 1 && (b[0] matches PrimitiveKind::Disk { height, radius, thetamax } && 2
                * near::exact(radius) == rounding::whole() && near::exact(height) == 0 && thetamax
                == interpreter::FULL_CIRCLE)
        }),
        q.text(0) == Some("PxrRectLight"@) ==> ({
            let b = (interpreter::modern_light(q, r, t)->0).1;
            b.len() == 2 && (b[0] matches PrimitiveKind::Triangle { v0, v1, v2 } && is_half_off(v0)
                && is_half_off(v1) && is_half_off(v2) && turning(v0, v1, v2) > 0) && (b[1] matches PrimitiveKind::Triangle {
                v0,
                v1,
                v2,
            } && is_half_off(v0) && is_half_off(v1) && is_half_off(v2) && turning(v0, v1, v2) > 0)
                && b[0]->v0 == b[1]->v0 && b[0]->v2 == b[1]->v1
        }),
{
    reveal_strlit("PxrSphereLight");
    reveal_strlit("PxrDiskLight");
    reveal_strlit("PxrRectLight");
    assert("PxrSphereLight"@.len() == 14 && "PxrDiskLight"@.len() == 12 && "PxrRectLight"@.len() == 12);
    assert("PxrDiskLight"@[3] == 'D' && "PxrRectLight"@[3] == 'R');
    subdivision_laws::constants_are_exact();
    rounding::nought_and_one();
    assert(math::MINUS_HALF == double::negated(math::HALF));
    rounding::negation_is_exact(math::HALF);
    lemma2_to64();
    lemma_pow2_adds(1, 1073);
    lemma_pow2_pos(1073);
    let p = pow2(1073) as int;
    assert(1 * p == p);
    assert((2 * p) * (2 * p) > 0) by (nonlinear_arith)
        requires
            p > 0,
    ;
    let h = near::exact(math::HALF);
    let n = near::exact(math::MINUS_HALF);
    assert((h - n) * (h - n) - (n - n) * (h - n) > 0) by (nonlinear_arith)
        requires
            h == p,
            n == -p,
            p > 0,
    ;
    assert((h - n) * (h - n) - (h - n) * (n - n) > 0) by (nonlinear_arith)
        requires
            h == p,
            n == -p,
            p > 0,
    ;
}

// ---- what is thin ----------------------------------------------------------

/// Curves are as wide at their root as the first of the widths, and at their tip as the last; or
/// everywhere as the constant one.
pub proof fn curves_have_their_widths(q: ast::RequestView, w: Seq<u64>, c: u64)
    ensures
        request_laws::gives(q, 3, "width"@, ast::ValueView::Numbers(w)) && w.len() > 0
            ==> requests::strand_widths(q.params(3)) == (w.first(), w.last()),
        request_laws::lacks(q, 3, "width"@) && request_laws::gives(
            q,
            3,
            "constantwidth"@,
            ast::ValueView::Numbers(seq![c]),
        ) ==> requests::strand_widths(q.params(3)) == (c, c),
{
    reveal_strlit("width");
    reveal_strlit("constantwidth");
    request_laws::parameters_are_found(q, 3, "width"@);
    request_laws::parameters_are_found(q, 3, "constantwidth"@);
}

/// Each point of a cloud stands where it is put, as wide as its own width, or as the constant one
/// where it has none.
pub proof fn points_have_their_widths(
    q: ast::RequestView,
    p: Seq<u64>,
    w: Seq<u64>,
    c: u64,
    i: int,
)
    requires
        request_laws::gives(q, 0, "P"@, ast::ValueView::Numbers(p)),
        request_laws::gives(q, 0, "width"@, ast::ValueView::Numbers(w)),
        request_laws::gives(q, 0, "constantwidth"@, ast::ValueView::Numbers(seq![c])),
        0 <= i < p.len() / 3,
    ensures
        requests::particles_of(q) matches Some(all) && all.len() == p.len() / 3 && ({
            &&& all[i].center == Vec3::of(p[3 * i], p[3 * i + 1], p[3 * i + 2])
            &&& i < w.len() ==> all[i].width == w[i]
            &&& i >= w.len() ==> all[i].width == c
        }),
{
    reveal_strlit("P");
    reveal_strlit("width");
    reveal_strlit("constantwidth");
    request_laws::parameters_are_found(q, 0, "P"@);
    request_laws::parameters_are_found(q, 0, "width"@);
    request_laws::parameters_are_found(q, 0, "constantwidth"@);
}

/// A crease goes from each of its vertices to the next, equally sharp all along.
pub proof fn creases_are_chains(ints: Seq<u64>, floats: Seq<u64>)
    requires
        floats.len() > 0,
    ensures
        ({
            let c = requests::crease_edges(ints, floats);
            &&& ints.len() > 0 ==> c.len() == ints.len() - 1
            &&& forall|i: int|
                0 <= i < c.len() ==> (#[trigger] c[i]).sharpness == floats[0] && c[i].a
                    == requests::index_ring(ints, 0, ints.len() as int)[i]
            &&& forall|i: int, j: int|
                0 <= i < c.len() && j == i + 1 && j < c.len() ==> (#[trigger] c[i]).b == (#[trigger]
                c[j]).a
            &&& c.len() > 0 ==> c.last().b == requests::index_ring(ints, 0, ints.len() as int).last()
        }),
{
}

/// A polygon is covered by triangles that go round as it does, each from its first vertex.
pub proof fn polygons_are_covered_in_order(p: Seq<u64>, material_id: usize, t: Transform, k: int)
    requires
        p.len() >= 9,
        0 <= k < p.len() / 3 - 2,
    ensures
        ({
            let all = interpreter::polygon_triangles(p, material_id, t);
            &&& all.len() + 2 == p.len() / 3
            &&& all[k].transform == t && all[k].material_id == material_id
            &&& all[k].kind matches PrimitiveKind::Triangle { v0, v1, v2 } && v0
                == math::triples(p)[0] && v1 == math::triples(p)[k + 1] && v2 == math::triples(p)[k + 2]
        }),
{
}

} // verus!
