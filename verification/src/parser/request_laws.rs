//! What requests do to a scene, told from their values: where lights stand, what primitives are
//! added, how the current transform and the attributes change.

use crate::arith::Op;
use crate::math;
use crate::math::matrix;
use crate::math::{Matrix4, Vec3};
use crate::parser::ast;
use crate::parser::interpreter;
use crate::parser::interpreter::Graphics;
use crate::parser::kinds::RequestKind;
use crate::parser::placement;
use crate::parser::scene::{
    GraphicsState, Light, LightScale, MaterialBase, PrimitiveKind, Transform, TransformNode,
};
use vstd::prelude::*;

verus! {

// ---- parameters ------------------------------------------------------------

/// The token in value `i` of a request: the name that it gives.
pub open spec fn token_at(q: ast::RequestView, i: int) -> Seq<char> {
    ast::token_name(q.values[i].text()->0)
}

/// Whether value `i` of a request is a token, and one more value follows it.
pub open spec fn is_token(q: ast::RequestView, i: int) -> bool {
    0 <= i && i + 1 < q.values.len() && q.values[i].text() is Some
}

/// Whether pair `k` of a parameter list that starts at value `start` is the first that names a
/// parameter, and holds that value.
pub open spec fn is_given_at(
    q: ast::RequestView,
    start: int,
    name: Seq<char>,
    v: ast::ValueView,
    k: int,
) -> bool {
    &&& k >= 0
    &&& forall|j: int| 0 <= j <= k ==> is_token(q, #[trigger] (start + 2 * j))
    &&& forall|j: int| 0 <= j < k ==> token_at(q, #[trigger] (start + 2 * j)) != name
    &&& token_at(q, start + 2 * k) == name
    &&& q.values[start + 2 * k + 1] == v
}

/// Whether a parameter list that starts at value `start` gives a parameter that value.
pub open spec fn gives(q: ast::RequestView, start: int, name: Seq<char>, v: ast::ValueView) -> bool {
    exists|k: int| #[trigger] is_given_at(q, start, name, v, k)
}

/// Whether no token of the request from value `start` on names the parameter.
pub open spec fn lacks(q: ast::RequestView, start: int, name: Seq<char>) -> bool {
    forall|i: int| start <= i && is_token(q, i) ==> #[trigger] token_at(q, i) != name
}

proof fn given_is_found(q: ast::RequestView, start: int, name: Seq<char>, v: ast::ValueView, k: int)
    requires
        0 <= start,
        name.len() > 0,
        is_given_at(q, start, name, v, k),
    ensures
        ast::find_param(q.params(start), name) == Some(v),
    decreases k,
{
    let pairs = ast::pairs_from(q.values, start);
    assert(is_token(q, start + 2 * 0));
    let rest = ast::pairs_from(q.values, start + 2);
    assert(pairs =~= seq![(q.values[start].text()->0, q.values[start + 1])] + rest);
    assert(pairs.drop_first() =~= rest);
    if k > 0 {
        assert(token_at(q, start + 2 * 0) != name);
        assert forall|j: int| 0 <= j <= k - 1 implies is_token(
            q,
            #[trigger] (start + 2 + 2 * j),
        ) by {
            assert(is_token(q, start + 2 * (j + 1)));
        }
        assert forall|j: int| 0 <= j < k - 1 implies token_at(q, #[trigger] (start + 2 + 2 * j))
            != name by {
            assert(token_at(q, start + 2 * (j + 1)) != name);
        }
        given_is_found(q, start + 2, name, v, k - 1);
    }
}

proof fn lacking_is_not_found(q: ast::RequestView, start: int, name: Seq<char>)
    requires
        0 <= start,
        lacks(q, start, name),
    ensures
        ast::find_param(q.params(start), name) is None,
    decreases q.values.len() - start,
{
    let pairs = ast::pairs_from(q.values, start);
    if is_token(q, start) {
        let rest = ast::pairs_from(q.values, start + 2);
        assert(pairs =~= seq![(q.values[start].text()->0, q.values[start + 1])] + rest);
        assert(pairs.drop_first() =~= rest);
        assert(token_at(q, start) != name);
        lacking_is_not_found(q, start + 2, name);
    }
}

/// A parameter that is given is found, and one that is lacking is not.
pub proof fn parameters_are_found(q: ast::RequestView, start: int, name: Seq<char>)
    requires
        0 <= start,
        name.len() > 0,
    ensures
        forall|v: ast::ValueView| #[trigger]
            gives(q, start, name, v) ==> ast::find_param(q.params(start), name) == Some(v),
        lacks(q, start, name) ==> ast::find_param(q.params(start), name) is None,
{
    assert forall|v: ast::ValueView| #[trigger] gives(q, start, name, v) implies ast::find_param(
        q.params(start),
        name,
    ) == Some(v) by {
        let k = choose|k: int| #[trigger] is_given_at(q, start, name, v, k);
        given_is_found(q, start, name, v, k);
    }
    if lacks(q, start, name) {
        lacking_is_not_found(q, start, name);
    }
}

/// A triple of numbers as a value.
pub open spec fn triple(p: Vec3) -> ast::ValueView {
    ast::ValueView::Numbers(seq![p.x, p.y, p.z])
}

/// Where the parameters of a light start: behind its type, and behind its handle where the number
/// of values is even.
pub open spec fn light_start(q: ast::RequestView) -> int {
    if q.values.len() % 2 == 0 {
        2
    } else {
        1
    }
}

// ---- lights ----------------------------------------------------------------

/// Whether requests take effect when they are read: nothing is being recorded.
pub open spec fn takes_effect(g: Graphics) -> bool {
    g.recording is None && !g.in_motion
}

/// The words that the laws on lights speak of.
proof fn words_are_words()
    ensures
        "from"@.len() > 0 && "to"@.len() > 0 && "intensity"@.len() > 0,
        "exposure"@.len() > 0 && "lightColor"@.len() > 0 && "angleExtent"@.len() > 0,
        "pointlight"@ != "distantlight"@,
{
    reveal_strlit("from");
    reveal_strlit("to");
    reveal_strlit("intensity");
    reveal_strlit("exposure");
    reveal_strlit("lightColor");
    reveal_strlit("angleExtent");
    reveal_strlit("pointlight");
    reveal_strlit("distantlight");
    assert("pointlight"@.len() == 10 && "distantlight"@.len() == 12);
}

/// The light of a `LightSource` request.
proof fn light_is_added(g: Graphics, pool: Seq<ast::RequestView>, r: usize, depth: nat)
    requires
        takes_effect(g),
        interpreter::kind_at(pool, r) is LightSource,
    ensures
        interpreter::request_read(g, pool, r, depth).0.lights == match interpreter::classic_light(
            pool[r as int],
        ) {
            Some(l) => g.lights.push(l),
            None => g.lights,
        },
{
    reveal(interpreter::request_read);
    reveal(interpreter::request_done);
    reveal(interpreter::processed);
    reveal(interpreter::processed_here);
}

/// A point light that is put at a place stands there, in the scene that follows; one that is put
/// nowhere stands at the origin. It is as bright as it is said to be.
pub proof fn point_lights_stand_where_they_are_put(
    g: Graphics,
    pool: Seq<ast::RequestView>,
    r: usize,
    depth: nat,
    p: Vec3,
    i: u64,
)
    requires
        takes_effect(g),
        interpreter::kind_at(pool, r) is LightSource,
        pool[r as int].text(0) == Some("pointlight"@),
        ({
            let q = pool[r as int];
            &&& gives(q, light_start(q), "from"@, triple(p)) || (lacks(q, light_start(q), "from"@)
                && p == Vec3::of(0, 0, 0))
            &&& gives(q, light_start(q), "intensity"@, ast::ValueView::Number(i)) || gives(
                q,
                light_start(q),
                "intensity"@,
                ast::ValueView::Numbers(seq![i]),
            ) || (lacks(q, light_start(q), "intensity"@) && i == math::ONE)
        }),
    ensures
        ({
            let h = interpreter::request_read(g, pool, r, depth).0;
            &&& h.lights.len() == g.lights.len() + 1
            &&& h.lights.last() == Light::Point { from: p, intensity: i }
            &&& h.lights.drop_last() == g.lights
        }),
{
    let q = pool[r as int];
    words_are_words();
    parameters_are_found(q, light_start(q), "from"@);
    parameters_are_found(q, light_start(q), "intensity"@);
    light_is_added(g, pool, r, depth);
    let h = interpreter::request_read(g, pool, r, depth).0;
    assert(h.lights.drop_last() =~= g.lights);
}

/// Point lights that are put at different places stand at different places.
pub proof fn point_lights_do_not_coincide(
    g: Graphics,
    pool: Seq<ast::RequestView>,
    r: usize,
    s: usize,
    depth: nat,
    p: Vec3,
    q: Vec3,
    i: u64,
)
    requires
        takes_effect(g),
        interpreter::kind_at(pool, r) is LightSource && interpreter::kind_at(pool, s) is LightSource,
        pool[r as int].text(0) == Some("pointlight"@) && pool[s as int].text(0) == Some(
            "pointlight"@,
        ),
        gives(pool[r as int], light_start(pool[r as int]), "from"@, triple(p)),
        gives(pool[s as int], light_start(pool[s as int]), "from"@, triple(q)),
        gives(pool[r as int], light_start(pool[r as int]), "intensity"@, ast::ValueView::Number(i)),
        gives(pool[s as int], light_start(pool[s as int]), "intensity"@, ast::ValueView::Number(i)),
        p != q,
    ensures
        interpreter::request_read(g, pool, r, depth).0.lights.last() != interpreter::request_read(
            g,
            pool,
            s,
            depth,
        ).0.lights.last(),
{
    point_lights_stand_where_they_are_put(g, pool, r, depth, p, i);
    point_lights_stand_where_they_are_put(g, pool, s, depth, q, i);
}

/// A distant light shines from where it is said to come from to where it is said to go: from ten
/// before the origin, and to the origin, where nothing is said.
pub proof fn distant_lights_shine_as_they_are_put(
    g: Graphics,
    pool: Seq<ast::RequestView>,
    r: usize,
    depth: nat,
    p: Vec3,
    t: Vec3,
    i: u64,
)
    requires
        takes_effect(g),
        interpreter::kind_at(pool, r) is LightSource,
        pool[r as int].text(0) == Some("distantlight"@),
        ({
            let q = pool[r as int];
            &&& gives(q, light_start(q), "from"@, triple(p)) || (lacks(q, light_start(q), "from"@)
                && p == Vec3::of(0, 0, 0xc024_0000_0000_0000))
            &&& gives(q, light_start(q), "to"@, triple(t)) || (lacks(q, light_start(q), "to"@) && t
                == Vec3::of(0, 0, 0))
            &&& gives(q, light_start(q), "intensity"@, ast::ValueView::Number(i)) || gives(
                q,
                light_start(q),
                "intensity"@,
                ast::ValueView::Numbers(seq![i]),
            ) || (lacks(q, light_start(q), "intensity"@) && i == math::ONE)
        }),
    ensures
        ({
            let h = interpreter::request_read(g, pool, r, depth).0;
            &&& h.lights.len() == g.lights.len() + 1
            &&& h.lights.last() == Light::Distant { from: p, to: t, intensity: i }
        }),
{
    let q = pool[r as int];
    words_are_words();
    parameters_are_found(q, light_start(q), "from"@);
    parameters_are_found(q, light_start(q), "to"@);
    parameters_are_found(q, light_start(q), "intensity"@);
    light_is_added(g, pool, r, depth);
}

/// How strong a light is, and of what colour.
pub open spec fn strength(l: Light) -> Option<LightScale> {
    match l {
        Light::Rect { scale, .. } => Some(scale),
        Light::Sphere { scale, .. } => Some(scale),
        Light::Disk { scale, .. } => Some(scale),
        Light::Sun { scale, .. } => Some(scale),
        Light::Dome { scale, .. } => Some(scale),
        _ => None,
    }
}

/// Where a light with a body, or with a direction, stands.
pub open spec fn place_of(l: Light) -> Option<Transform> {
    match l {
        Light::Rect { transform, .. } => Some(transform),
        Light::Sphere { transform, .. } => Some(transform),
        Light::Disk { transform, .. } => Some(transform),
        Light::Sun { transform, .. } => Some(transform),
        _ => None,
    }
}

/// A modern light is as strong as it is said to be, of the colour that it is given, and stands
/// at the current transform; its body, where it has one, stands there too, and its material names
/// the light.
pub proof fn modern_lights_are_as_they_are_put(
    g: Graphics,
    pool: Seq<ast::RequestView>,
    r: usize,
    depth: nat,
    intensity: u64,
    exposure: u64,
    color: Vec3,
)
    requires
        takes_effect(g),
        interpreter::kind_at(pool, r) is Light,
        interpreter::modern_light(pool[r as int], r, g.transform) is Some,
        g.lights.len() <= usize::MAX && g.materials.len() <= usize::MAX,
        ({
            let q = pool[r as int];
            &&& gives(q, light_start(q), "intensity"@, ast::ValueView::Numbers(seq![intensity]))
            &&& gives(q, light_start(q), "exposure"@, ast::ValueView::Numbers(seq![exposure]))
            &&& gives(q, light_start(q), "lightColor"@, triple(color))
        }),
    ensures
        ({
            let h = interpreter::request_read(g, pool, r, depth).0;
            let l = h.lights.last();
            &&& h.lights.len() == g.lights.len() + 1
            &&& strength(l) == Some(LightScale { intensity, exposure, color })
            &&& l is Dome || place_of(l) == Some(g.transform)
            &&& g.objects.len() <= h.objects.len()
            &&& forall|i: int|
                g.objects.len() <= i < h.objects.len() ==> (#[trigger] h.objects[i]).transform
                    == g.transform && h.objects[i].material_id == g.materials.len()
            &&& h.objects.len() > g.objects.len() ==> h.materials.last().area_light == Some(
                g.lights.len() as usize,
            )
            &&& (l is Rect || l is Sphere || l is Disk) <==> h.objects.len() > g.objects.len()
        }),
{
    let q = pool[r as int];
    words_are_words();
    parameters_are_found(q, light_start(q), "intensity"@);
    parameters_are_found(q, light_start(q), "exposure"@);
    parameters_are_found(q, light_start(q), "lightColor"@);
    reveal(interpreter::request_read);
    reveal(interpreter::request_done);
    reveal(interpreter::processed);
    reveal(interpreter::processed_here);
    reveal(interpreter::light_applied);
}

// ---- primitives ------------------------------------------------------------

/// Whether a request starts with these numbers.
pub open spec fn starts_with_numbers(q: ast::RequestView, n: Seq<u64>) -> bool {
    n.len() <= q.values.len() && forall|i: int|
        0 <= i < n.len() ==> #[trigger] q.values[i] == ast::ValueView::Number(n[i])
}

/// The quadric of a kind with these numbers, in the order in which requests give them.
pub open spec fn with_numbers(kind: RequestKind, n: Seq<u64>) -> Option<PrimitiveKind> {
    if kind is Sphere && n.len() == 4 {
        Some(PrimitiveKind::Sphere { radius: n[0], zmin: n[1], zmax: n[2], thetamax: n[3] })
    } else if kind is Cylinder && n.len() == 4 {
        Some(PrimitiveKind::Cylinder { radius: n[0], zmin: n[1], zmax: n[2], thetamax: n[3] })
    } else if kind is Cone && n.len() == 3 {
        Some(PrimitiveKind::Cone { height: n[0], radius: n[1], thetamax: n[2] })
    } else if kind is Disk && n.len() == 3 {
        Some(PrimitiveKind::Disk { height: n[0], radius: n[1], thetamax: n[2] })
    } else if kind is Paraboloid && n.len() == 4 {
        Some(PrimitiveKind::Paraboloid { rmax: n[0], zmin: n[1], zmax: n[2], thetamax: n[3] })
    } else if kind is Torus && n.len() == 5 {
        Some(
            PrimitiveKind::Torus {
                major_radius: n[0],
                minor_radius: n[1],
                phimin: n[2],
                phimax: n[3],
                thetamax: n[4],
            },
        )
    } else if kind is Hyperboloid && n.len() == 7 {
        Some(
            PrimitiveKind::Hyperboloid {
                p1: Vec3::of(n[0], n[1], n[2]),
                p2: Vec3::of(n[3], n[4], n[5]),
                thetamax: n[6],
            },
        )
    } else {
        None
    }
}

/// A quadric with its numbers is added to the scene, at the current transform, with a material of
/// its own that has the current colour where no other material is set.
pub proof fn quadrics_are_added(
    g: Graphics,
    pool: Seq<ast::RequestView>,
    r: usize,
    depth: nat,
    n: Seq<u64>,
)
    requires
        takes_effect(g),
        g.defining is None,
        g.materials.len() <= usize::MAX,
        starts_with_numbers(pool[r as int], n),
        with_numbers(interpreter::kind_at(pool, r), n) is Some,
    ensures
        ({
            let h = interpreter::request_read(g, pool, r, depth).0;
            let o = h.objects.last();
            &&& h.objects.len() == g.objects.len() + 1
            &&& h.objects.drop_last() == g.objects
            &&& Some(o.kind) == with_numbers(interpreter::kind_at(pool, r), n)
            &&& o.transform == g.transform
            &&& o.material_id == g.materials.len() && h.materials.len() == g.materials.len() + 1
            &&& h.materials.last().interior == g.state.interior
            &&& g.state.hair is None && g.state.bxdf is None ==> h.materials.last().base
                == MaterialBase::Surface {
                surface: g.state.surface,
                color: g.state.color,
                roughness: g.state.roughness,
            }
        }),
{
    let q = pool[r as int];
    reveal(interpreter::request_read);
    reveal(interpreter::request_done);
    reveal(interpreter::processed);
    reveal(interpreter::processed_here);
    reveal(interpreter::primitive_added);
    assert forall|i: int| 0 <= i < n.len() implies q.number(i) == Some(n[i]) by {
        assert(q.values[i] == ast::ValueView::Number(n[i]));
    }
    let h = interpreter::request_read(g, pool, r, depth).0;
    assert(h.objects.drop_last() =~= g.objects);
}

// ---- transforms ------------------------------------------------------------

/// What a transform request multiplies the current matrix with, on the right.
pub open spec fn factor<F: Fn(Op, u64, u64) -> u64>(f: F, kind: RequestKind, n: Seq<u64>) -> Option<
    Matrix4,
> {
    if kind is Translate && n.len() == 3 {
        Some(Matrix4::translate_of(n[0], n[1], n[2]))
    } else if kind is Scale && n.len() == 3 {
        Some(Matrix4::scale_of(n[0], n[1], n[2]))
    } else if kind is Rotate && n.len() == 4 {
        Some(Matrix4::rotate_of(f, n[0], Vec3::of(n[1], n[2], n[3])))
    } else {
        None
    }
}

/// The matrix of the current transform.
pub open spec fn current<F: Fn(Op, u64, u64) -> u64>(f: F, g: Graphics, pool: Seq<ast::RequestView>) -> Matrix4 {
    placement::matrix_of(f, g.nodes, pool, g.transform)
}

/// Whether a transform is one that there is.
pub open spec fn is_there(nodes: Seq<TransformNode>, t: Transform) -> bool {
    match t.node {
        Some(n) => n < nodes.len(),
        None => true,
    }
}

proof fn more_nodes_change_nothing<F: Fn(Op, u64, u64) -> u64>(
    f: F,
    nodes: Seq<TransformNode>,
    x: TransformNode,
    pool: Seq<ast::RequestView>,
    t: Transform,
)
    requires
        is_there(nodes, t),
    ensures
        placement::matrix_of(f, nodes.push(x), pool, t) == placement::matrix_of(f, nodes, pool, t),
    decreases (match t.node {
        Some(n) => n + 1,
        None => 0,
    }),
{
    if let Some(n) = t.node {
        assert(nodes.push(x)[n as int] == nodes[n as int]);
        if placement::is_earlier(nodes[n as int].parent, n) {
            more_nodes_change_nothing(f, nodes, x, pool, nodes[n as int].parent);
        }
    }
}

/// A move, a change of size and a turn are multiplied to the current matrix on its right: they
/// apply to what follows before everything that came earlier.
pub proof fn transforms_multiply_on_the_right<F: Fn(Op, u64, u64) -> u64>(
    f: F,
    g: Graphics,
    pool: Seq<ast::RequestView>,
    r: usize,
    depth: nat,
    n: Seq<u64>,
)
    requires
        takes_effect(g),
        is_there(g.nodes, g.transform),
        g.nodes.len() < usize::MAX,
        starts_with_numbers(pool[r as int], n),
        factor(f, interpreter::kind_at(pool, r), n) is Some,
    ensures
        ({
            let h = interpreter::request_read(g, pool, r, depth).0;
            current(f, h, pool) == matrix::product_of(
                f,
                current(f, g, pool),
                factor(f, interpreter::kind_at(pool, r), n)->0,
            )
        }),
{
    let q = pool[r as int];
    reveal(interpreter::request_read);
    reveal(interpreter::request_done);
    reveal(interpreter::processed);
    reveal(interpreter::processed_here);
    reveal(interpreter::transform_applied);
    assert forall|i: int| 0 <= i < n.len() implies q.number(i) == Some(n[i]) by {
        assert(q.values[i] == ast::ValueView::Number(n[i]));
    }
    let h = interpreter::request_read(g, pool, r, depth).0;
    let x = h.nodes.last();
    assert(h.nodes =~= g.nodes.push(x));
    more_nodes_change_nothing(f, g.nodes, x, pool, g.transform);
    assert(h.nodes[g.nodes.len() as int].parent == g.transform);
}

/// The identity forgets what came before; a matrix replaces it, or is multiplied to it on the
/// right. A matrix is given by its columns.
pub proof fn matrices_replace_and_multiply<F: Fn(Op, u64, u64) -> u64>(
    f: F,
    g: Graphics,
    pool: Seq<ast::RequestView>,
    r: usize,
    depth: nat,
    m: Seq<u64>,
)
    requires
        takes_effect(g),
        is_there(g.nodes, g.transform),
        g.nodes.len() < usize::MAX,
        r < pool.len(),
        pool[r as int].values.len() > 0,
        pool[r as int].values[0] == ast::ValueView::Numbers(m),
        m.len() == 16,
    ensures
        ({
            let h = interpreter::request_read(g, pool, r, depth).0;
            let given = Matrix4 {
                a: matrix::Row { x: m[0], y: m[4], z: m[8], w: m[12] },
                b: matrix::Row { x: m[1], y: m[5], z: m[9], w: m[13] },
                c: matrix::Row { x: m[2], y: m[6], z: m[10], w: m[14] },
                d: matrix::Row { x: m[3], y: m[7], z: m[11], w: m[15] },
            };
            &&& interpreter::kind_at(pool, r) is Identity ==> current(f, h, pool)
                == Matrix4::identity_of()
            &&& interpreter::kind_at(pool, r) is Transform ==> current(f, h, pool) == given
            &&& interpreter::kind_at(pool, r) is ConcatTransform ==> current(f, h, pool)
                == matrix::product_of(f, current(f, g, pool), given)
        }),
{
    reveal(interpreter::request_read);
    reveal(interpreter::request_done);
    reveal(interpreter::processed);
    reveal(interpreter::processed_here);
    reveal(interpreter::transform_applied);
    let h = interpreter::request_read(g, pool, r, depth).0;
    let kind = interpreter::kind_at(pool, r);
    assert(pool[r as int].numbers(0) == Some(m));
    if kind is Transform || kind is ConcatTransform {
        let x = h.nodes.last();
        assert(h.nodes =~= g.nodes.push(x));
        more_nodes_change_nothing(f, g.nodes, x, pool, g.transform);
        assert(h.nodes[g.nodes.len() as int].parent == g.transform);
    }
}

// ---- attributes and options ------------------------------------------------

/// Colours, opacities, shading rates and sides are what they are set to, and nothing else of the
/// scene changes with them.
pub proof fn attributes_are_set(
    g: Graphics,
    pool: Seq<ast::RequestView>,
    r: usize,
    depth: nat,
    c: Vec3,
)
    requires
        takes_effect(g),
        starts_with_numbers(pool[r as int], seq![c.x, c.y, c.z]),
        pool[r as int].values.len() == 3,
    ensures
        ({
            let h = interpreter::request_read(g, pool, r, depth).0;
            let kind = interpreter::kind_at(pool, r);
            &&& kind is Color ==> h == (Graphics {
                state: GraphicsState { color: c, ..g.state },
                ..g
            })
            &&& kind is Opacity ==> h == (Graphics {
                state: GraphicsState { opacity: c, ..g.state },
                ..g
            })
            &&& kind is ShadingRate ==> h.state.shading_rate == c.x
            &&& kind is ReverseOrientation ==> h.state.reverse_orientation
                == !g.state.reverse_orientation
        }),
{
    let q = pool[r as int];
    reveal(interpreter::request_read);
    reveal(interpreter::request_done);
    reveal(interpreter::processed);
    reveal(interpreter::processed_here);
    reveal(interpreter::attribute_applied);
    assert(q.values[0] == ast::ValueView::Number(seq![c.x, c.y, c.z][0]));
    assert(q.values[1] == ast::ValueView::Number(seq![c.x, c.y, c.z][1]));
    assert(q.values[2] == ast::ValueView::Number(seq![c.x, c.y, c.z][2]));
}

} // verus!
