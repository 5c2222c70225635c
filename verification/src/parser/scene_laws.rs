//! What holds of every scene: whatever a scene refers to by index is there, patterns refer
//! to earlier patterns and transforms to earlier transforms, and instances of an object
//! share its materials.

use crate::parser::ast;
use crate::parser::binary;
use crate::parser::interpreter;
use crate::parser::interpreter::{Graphics, WarningKind};
use crate::parser::kinds;
use crate::parser::requests;
use crate::parser::scene;
use crate::parser::scene::{
    BxdfView, GeomKind, GraphicsState, Instance, Light, Material, MaterialBase, ObjectDefEntry,
    PInput, PatternNode, PrimitiveDesc, Transform, TransformNode,
};
use crate::parser::scene_builder;
use vstd::prelude::*;

verus! {

/// How much of everything there is to refer to.
pub struct Extent {
    pub nodes: nat,
    pub materials: nat,
    pub lights: nat,
    pub media: nat,
    pub bxdfs: nat,
    pub patterns: nat,
    pub bindable: nat,
    pub meshes: nat,
    pub curve_sets: nat,
}

/// What a scene has.
pub open spec fn extent(g: Graphics) -> Extent {
    Extent {
        nodes: g.nodes.len(),
        materials: g.materials.len(),
        lights: g.lights.len(),
        media: g.media.len(),
        bxdfs: g.bxdfs.len(),
        patterns: g.patterns.len(),
        bindable: g.bindable.len(),
        meshes: g.meshes.len(),
        curve_sets: g.curve_sets.len(),
    }
}

pub open spec fn opt_below(i: Option<usize>, n: nat) -> bool {
    i matches Some(i) ==> i < n
}

pub open spec fn opt_medium(i: Option<u32>, n: nat) -> bool {
    i matches Some(i) ==> i < n
}

/// The transform is the identity or one of the nodes.
pub open spec fn has_transform(t: Transform, e: Extent) -> bool {
    opt_below(t.node, e.nodes)
}

pub open spec fn has_motion(m: Option<scene::Motion>, e: Extent) -> bool {
    m matches Some(m) ==> has_transform(m.open, e) && has_transform(m.close, e)
}

/// What an attribute state refers to is there.
pub open spec fn state_linked(s: GraphicsState, e: Extent) -> bool {
    opt_below(s.bxdf, e.bxdfs) && opt_medium(s.interior, e.media) && has_motion(s.motion, e)
}

/// What a material refers to is there.
pub open spec fn material_linked(m: Material, e: Extent) -> bool {
    &&& m.base matches MaterialBase::Bxdf { bxdf } ==> bxdf < e.bxdfs
    &&& opt_below(m.area_light, e.lights)
    &&& opt_medium(m.interior, e.media)
}

/// What a primitive refers to is there.
pub open spec fn object_linked(o: PrimitiveDesc, e: Extent) -> bool {
    o.material_id < e.materials && has_transform(o.transform, e)
}

/// What an instance refers to is there.
pub open spec fn instance_linked(i: Instance, e: Extent) -> bool {
    &&& match i.geometry {
        GeomKind::Mesh(m) => m < e.meshes,
        GeomKind::Curves(c) => c < e.curve_sets,
    }
    &&& i.material_id < e.materials
    &&& has_transform(i.placement, e)
    &&& i.local matches Some(t) ==> has_transform(t, e)
    &&& has_motion(i.motion, e)
}

/// What an entry of an object definition refers to is there.
pub open spec fn entry_linked(d: ObjectDefEntry, e: Extent) -> bool {
    d.mesh < e.meshes && d.material_id < e.materials && has_transform(d.local, e)
}

pub open spec fn entries_linked(d: Seq<ObjectDefEntry>, e: Extent) -> bool {
    forall|i: int| 0 <= i < d.len() ==> entry_linked(#[trigger] d[i], e)
}

/// What a light refers to is there.
pub open spec fn light_linked(l: Light, e: Extent) -> bool {
    match l {
        Light::Quad { transform, .. } => has_transform(transform, e),
        Light::Rect { transform, .. } => has_transform(transform, e),
        Light::Sphere { transform, .. } => has_transform(transform, e),
        Light::Disk { transform, .. } => has_transform(transform, e),
        Light::Sun { transform, .. } => has_transform(transform, e),
        _ => true,
    }
}

pub open spec fn input_below(i: PInput, n: nat) -> bool {
    i matches PInput::Node(k) ==> k < n
}

/// A pattern refers to patterns before it.
pub open spec fn pattern_linked(p: PatternNode, n: nat) -> bool {
    match p {
        PatternNode::Mix { color1, color2, mix } => input_below(color1, n) && input_below(color2, n)
            && input_below(mix, n),
        PatternNode::ColorCorrect { input, .. } => input_below(input, n),
        _ => true,
    }
}

/// What a material's bindings refer to is there.
pub open spec fn bindings_linked(v: Seq<(usize, u32)>, e: Extent) -> bool {
    forall|i: int| 0 <= i < v.len() ==> (#[trigger] v[i]).0 < e.bindable && v[i].1 < e.patterns
}

/// Whatever a scene refers to by index is there; patterns and transforms refer to earlier
/// ones, so neither runs in a circle.
pub open spec fn is_linked(g: Graphics) -> bool {
    let e = extent(g);
    &&& state_linked(g.state, e)
    &&& has_transform(g.transform, e)
    &&& opt_medium(g.atmosphere, e.media)
    &&& forall|i: int|
        0 <= i < g.attribute_stack.len() ==> state_linked(#[trigger] g.attribute_stack[i], e)
    &&& forall|i: int|
        0 <= i < g.transform_stack.len() ==> has_transform(#[trigger] g.transform_stack[i], e)
    &&& forall|i: int|
        0 <= i < g.coordinate_systems.len() ==> has_transform(
            (#[trigger] g.coordinate_systems[i]).1,
            e,
        )
    &&& forall|i: int|
        0 <= i < g.nodes.len() ==> opt_below((#[trigger] g.nodes[i]).parent.node, i as nat)
    &&& forall|i: int| 0 <= i < g.materials.len() ==> material_linked(#[trigger] g.materials[i], e)
    &&& forall|i: int| 0 <= i < g.objects.len() ==> object_linked(#[trigger] g.objects[i], e)
    &&& forall|i: int| 0 <= i < g.instances.len() ==> instance_linked(#[trigger] g.instances[i], e)
    &&& forall|i: int| 0 <= i < g.lights.len() ==> light_linked(#[trigger] g.lights[i], e)
    &&& forall|i: int|
        0 <= i < g.definitions.len() ==> entries_linked((#[trigger] g.definitions[i]).1, e)
    &&& g.defining matches Some(d) ==> entries_linked(d.1, e)
    &&& forall|i: int|
        0 <= i < g.patterns.len() ==> pattern_linked(#[trigger] g.patterns[i], i as nat)
    &&& forall|i: int| 0 <= i < g.handles.len() ==> (#[trigger] g.handles[i]).1 < e.patterns
    &&& forall|i: int|
        0 <= i < g.bxdfs.len() ==> bindings_linked((#[trigger] g.bxdfs[i]).bindings, e)
}

/// Whether what a scene counts can be counted by a machine word.
pub open spec fn is_countable(g: Graphics) -> bool {
    &&& g.nodes.len() < usize::MAX - 1
    &&& g.materials.len() < usize::MAX
    &&& g.lights.len() < usize::MAX
    &&& g.bxdfs.len() < usize::MAX
    &&& g.meshes.len() < usize::MAX
    &&& g.curve_sets.len() < usize::MAX
    &&& g.bindable.len() < usize::MAX
}

// ---- how a scene grows -----------------------------------------------------

/// There is no less of anything.
spec fn reaches(e: Extent, f: Extent) -> bool {
    &&& e.nodes <= f.nodes
    &&& e.materials <= f.materials
    &&& e.lights <= f.lights
    &&& e.media <= f.media
    &&& e.bxdfs <= f.bxdfs
    &&& e.patterns <= f.patterns
    &&& e.bindable <= f.bindable
    &&& e.meshes <= f.meshes
    &&& e.curve_sets <= f.curve_sets
}

/// What was there is there still, at the same place.
spec fn prefix<T>(a: Seq<T>, b: Seq<T>) -> bool {
    a.len() <= b.len() && forall|i: int| 0 <= i < a.len() ==> #[trigger] b[i] == a[i]
}

/// A scene with more in it, all of it linked; the stacks and the open definition apart.
spec fn extends(g: Graphics, h: Graphics) -> bool {
    let e = extent(h);
    &&& h.bindable == g.bindable
    &&& prefix(g.coordinate_systems, h.coordinate_systems)
    &&& forall|i: int|
        g.coordinate_systems.len() <= i < h.coordinate_systems.len() ==> has_transform(
            (#[trigger] h.coordinate_systems[i]).1,
            e,
        )
    &&& prefix(g.nodes, h.nodes)
    &&& forall|i: int|
        g.nodes.len() <= i < h.nodes.len() ==> opt_below(
            (#[trigger] h.nodes[i]).parent.node,
            i as nat,
        )
    &&& prefix(g.materials, h.materials)
    &&& forall|i: int|
        g.materials.len() <= i < h.materials.len() ==> material_linked(
            #[trigger] h.materials[i],
            e,
        )
    &&& prefix(g.objects, h.objects)
    &&& forall|i: int|
        g.objects.len() <= i < h.objects.len() ==> object_linked(#[trigger] h.objects[i], e)
    &&& prefix(g.instances, h.instances)
    &&& forall|i: int|
        g.instances.len() <= i < h.instances.len() ==> instance_linked(
            #[trigger] h.instances[i],
            e,
        )
    &&& prefix(g.lights, h.lights)
    &&& forall|i: int|
        g.lights.len() <= i < h.lights.len() ==> light_linked(#[trigger] h.lights[i], e)
    &&& prefix(g.definitions, h.definitions)
    &&& forall|i: int|
        g.definitions.len() <= i < h.definitions.len() ==> entries_linked(
            (#[trigger] h.definitions[i]).1,
            e,
        )
    &&& prefix(g.patterns, h.patterns)
    &&& forall|i: int|
        g.patterns.len() <= i < h.patterns.len() ==> pattern_linked(
            #[trigger] h.patterns[i],
            i as nat,
        )
    &&& prefix(g.handles, h.handles)
    &&& forall|i: int|
        g.handles.len() <= i < h.handles.len() ==> (#[trigger] h.handles[i]).1 < e.patterns
    &&& prefix(g.bxdfs, h.bxdfs)
    &&& forall|i: int|
        g.bxdfs.len() <= i < h.bxdfs.len() ==> bindings_linked(
            (#[trigger] h.bxdfs[i]).bindings,
            e,
        )
    &&& g.media.len() <= h.media.len()
    &&& g.meshes.len() <= h.meshes.len()
    &&& g.curve_sets.len() <= h.curve_sets.len()
    &&& opt_medium(h.atmosphere, e.media)
    &&& state_linked(h.state, e)
    &&& has_transform(h.transform, e)
}

/// The stacks and the open definition are as they were.
spec fn same_stacks(g: Graphics, h: Graphics) -> bool {
    &&& h.attribute_stack == g.attribute_stack
    &&& h.transform_stack == g.transform_stack
}

proof fn more_keeps_linked(g: Graphics, h: Graphics)
    requires
        is_linked(g),
        extends(g, h),
        same_stacks(g, h),
        h.defining matches Some(d) ==> entries_linked(d.1, extent(h)),
    ensures
        is_linked(h),
{
    let e = extent(g);
    let f = extent(h);
    assert(reaches(e, f));
    assert forall|i: int| 0 <= i < h.attribute_stack.len() implies state_linked(
        #[trigger] h.attribute_stack[i],
        f,
    ) by {
        assert(state_linked(g.attribute_stack[i], e));
    }
    assert forall|i: int| 0 <= i < h.transform_stack.len() implies has_transform(
        #[trigger] h.transform_stack[i],
        f,
    ) by {
        assert(has_transform(g.transform_stack[i], e));
    }
    assert forall|i: int| 0 <= i < h.coordinate_systems.len() implies has_transform(
        (#[trigger] h.coordinate_systems[i]).1,
        f,
    ) by {
        if i < g.coordinate_systems.len() {
            assert(has_transform(g.coordinate_systems[i].1, e));
        }
    }
    assert forall|i: int| 0 <= i < h.nodes.len() implies opt_below(
        (#[trigger] h.nodes[i]).parent.node,
        i as nat,
    ) by {
        if i < g.nodes.len() {
            assert(opt_below(g.nodes[i].parent.node, i as nat));
        }
    }
    assert forall|i: int| 0 <= i < h.materials.len() implies material_linked(
        #[trigger] h.materials[i],
        f,
    ) by {
        if i < g.materials.len() {
            assert(material_linked(g.materials[i], e));
        }
    }
    assert forall|i: int| 0 <= i < h.objects.len() implies object_linked(
        #[trigger] h.objects[i],
        f,
    ) by {
        if i < g.objects.len() {
            assert(object_linked(g.objects[i], e));
        }
    }
    assert forall|i: int| 0 <= i < h.instances.len() implies instance_linked(
        #[trigger] h.instances[i],
        f,
    ) by {
        if i < g.instances.len() {
            assert(instance_linked(g.instances[i], e));
        }
    }
    assert forall|i: int| 0 <= i < h.lights.len() implies light_linked(
        #[trigger] h.lights[i],
        f,
    ) by {
        if i < g.lights.len() {
            assert(light_linked(g.lights[i], e));
        }
    }
    assert forall|i: int| 0 <= i < h.definitions.len() implies entries_linked(
        (#[trigger] h.definitions[i]).1,
        f,
    ) by {
        if i < g.definitions.len() {
            assert(entries_linked(g.definitions[i].1, e));
            entries_stay_linked(g.definitions[i].1, e, f);
        }
    }
    assert forall|i: int| 0 <= i < h.patterns.len() implies pattern_linked(
        #[trigger] h.patterns[i],
        i as nat,
    ) by {
        if i < g.patterns.len() {
            assert(pattern_linked(g.patterns[i], i as nat));
        }
    }
    assert forall|i: int| 0 <= i < h.handles.len() implies (#[trigger] h.handles[i]).1
        < f.patterns by {
        if i < g.handles.len() {
            assert(g.handles[i].1 < e.patterns);
        }
    }
    assert forall|i: int| 0 <= i < h.bxdfs.len() implies bindings_linked(
        (#[trigger] h.bxdfs[i]).bindings,
        f,
    ) by {
        if i < g.bxdfs.len() {
            assert(bindings_linked(g.bxdfs[i].bindings, e));
            bindings_stay_linked(g.bxdfs[i].bindings, e, f);
        }
    }
}

proof fn entries_stay_linked(d: Seq<ObjectDefEntry>, e: Extent, f: Extent)
    requires
        entries_linked(d, e),
        reaches(e, f),
    ensures
        entries_linked(d, f),
{
    assert forall|i: int| 0 <= i < d.len() implies entry_linked(#[trigger] d[i], f) by {
        assert(entry_linked(d[i], e));
    }
}

proof fn bindings_stay_linked(v: Seq<(usize, u32)>, e: Extent, f: Extent)
    requires
        bindings_linked(v, e),
        reaches(e, f),
    ensures
        bindings_linked(v, f),
{
    assert forall|i: int| 0 <= i < v.len() implies (#[trigger] v[i]).0 < f.bindable && v[i].1
        < f.patterns by {
        assert(v[i].0 < e.bindable && v[i].1 < e.patterns);
    }
}

/// A warning changes nothing else.
proof fn warning_keeps(g: Graphics, kind: WarningKind, name: Seq<char>)
    requires
        is_linked(g),
    ensures
        is_linked(interpreter::warned(g, kind, name)),
        extent(interpreter::warned(g, kind, name)) == extent(g),
{
}

proof fn warnings_keep(g: Graphics, kind: WarningKind, names: Seq<Seq<char>>)
    requires
        is_linked(g),
    ensures
        is_linked(interpreter::warned_each(g, kind, names)),
        extent(interpreter::warned_each(g, kind, names)) == extent(g),
    decreases names.len(),
{
    if names.len() > 0 {
        warnings_keep(g, kind, names.drop_last());
    }
}

// ---- each kind of request --------------------------------------------------

proof fn option_keeps(g: Graphics, q: ast::RequestView, r: usize, kind: kinds::RequestKind)
    requires
        is_linked(g),
    ensures
        is_linked(interpreter::option_applied(g, q, r, kind)),
{
    reveal(interpreter::option_applied);
    let h = interpreter::option_applied(g, q, r, kind);
    assert(extends(g, h));
    more_keeps_linked(g, h);
}

proof fn transform_keeps(g: Graphics, q: ast::RequestView, r: usize, kind: kinds::RequestKind)
    requires
        is_linked(g),
        g.nodes.len() < usize::MAX,
    ensures
        is_linked(interpreter::transform_applied(g, q, r, kind)),
        interpreter::transform_applied(g, q, r, kind).nodes.len() <= g.nodes.len() + 1,
{
    reveal(interpreter::transform_applied);
    let h = interpreter::transform_applied(g, q, r, kind);
    assert(extends(g, h));
    if g.defining is Some {
        entries_stay_linked((g.defining->0).1, extent(g), extent(h));
    }
    more_keeps_linked(g, h);
}

proof fn attribute_keeps(g: Graphics, q: ast::RequestView, r: usize, kind: kinds::RequestKind)
    requires
        is_linked(g),
    ensures
        is_linked(interpreter::attribute_applied(g, q, r, kind)),
{
    reveal(interpreter::attribute_applied);
    let h = interpreter::attribute_applied(g, q, r, kind);
    assert(extends(g, h));
    more_keeps_linked(g, h);
}

proof fn medium_keeps(g: Graphics, q: ast::RequestView, kind: kinds::RequestKind)
    requires
        is_linked(g),
        interpreter::has_room(g),
    ensures
        is_linked(interpreter::medium_applied(g, q, kind)),
{
    reveal(interpreter::medium_applied);
    let h = interpreter::medium_applied(g, q, kind);
    assert(extends(g, h));
    if g.defining is Some {
        entries_stay_linked((g.defining->0).1, extent(g), extent(h));
    }
    more_keeps_linked(g, h);
}

proof fn primitive_keeps(
    g: Graphics,
    pool: Seq<ast::RequestView>,
    name: Seq<char>,
    kind: scene::PrimitiveKind,
)
    requires
        is_linked(g),
        is_countable(g),
    ensures
        is_linked(interpreter::primitive_added(g, pool, name, kind)),
{
    reveal(interpreter::primitive_added);
    let h = interpreter::primitive_added(g, pool, name, kind);
    assert(extends(g, h));
    more_keeps_linked(g, h);
}

proof fn mesh_keeps(g: Graphics, pool: Seq<ast::RequestView>, source: scene::MeshSourceView)
    requires
        is_linked(g),
        is_countable(g),
    ensures
        is_linked(interpreter::mesh_added(g, pool, source)),
{
    reveal(interpreter::mesh_added);
    let h = interpreter::mesh_added(g, pool, source);
    let e = extent(h);
    assert(extends(g, h));
    if g.defining is Some {
        let before = (g.defining->0).1;
        let after = (h.defining->0).1;
        entries_stay_linked(before, extent(g), e);
        assert forall|i: int| 0 <= i < after.len() implies entry_linked(#[trigger] after[i], e) by {
            if i < before.len() {
                assert(entry_linked(before[i], e));
            }
        }
    }
    more_keeps_linked(g, h);
}

proof fn curves_keep(g: Graphics, pool: Seq<ast::RequestView>, source: scene::CurveSourceView)
    requires
        is_linked(g),
        is_countable(g),
    ensures
        is_linked(interpreter::curves_added(g, pool, source)),
{
    reveal(interpreter::curves_added);
    let h = interpreter::curves_added(g, pool, source);
    assert(extends(g, h));
    if g.defining is Some {
        entries_stay_linked((g.defining->0).1, extent(g), extent(h));
    }
    more_keeps_linked(g, h);
}

proof fn polygon_keeps(g: Graphics, pool: Seq<ast::RequestView>, q: ast::RequestView)
    requires
        is_linked(g),
        is_countable(g),
    ensures
        is_linked(interpreter::polygon_applied(g, pool, q)),
{
    reveal(interpreter::polygon_applied);
    let h = interpreter::polygon_applied(g, pool, q);
    assert(extends(g, h));
    if g.defining is Some {
        entries_stay_linked((g.defining->0).1, extent(g), extent(h));
    }
    more_keeps_linked(g, h);
}

proof fn light_keeps(g: Graphics, q: ast::RequestView, r: usize)
    requires
        is_linked(g),
        is_countable(g),
    ensures
        is_linked(interpreter::light_applied(g, q, r)),
{
    reveal(interpreter::light_applied);
    let h = interpreter::light_applied(g, q, r);
    assert(extends(g, h));
    if g.defining is Some {
        entries_stay_linked((g.defining->0).1, extent(g), extent(h));
    }
    more_keeps_linked(g, h);
}

/// A handle names a pattern that is there.
proof fn handle_is_linked(handles: Seq<(Seq<char>, u32)>, name: Seq<char>, n: nat)
    requires
        forall|i: int| 0 <= i < handles.len() ==> (#[trigger] handles[i]).1 < n,
    ensures
        interpreter::last_entry(handles, name) matches Some(k) ==> k < n,
    decreases handles.len(),
{
    if handles.len() > 0 {
        assert(handles[handles.len() - 1].1 < n);
        assert forall|i: int| 0 <= i < handles.drop_last().len() implies (
        #[trigger] handles.drop_last()[i]).1 < n by {
            assert(handles[i].1 < n);
        }
        handle_is_linked(handles.drop_last(), name, n);
    }
}

proof fn reference_is_linked(
    handles: Seq<(Seq<char>, u32)>,
    pairs: Seq<(Seq<char>, ast::ValueView)>,
    name: Seq<char>,
    n: nat,
)
    requires
        forall|i: int| 0 <= i < handles.len() ==> (#[trigger] handles[i]).1 < n,
    ensures
        interpreter::referenced_node(handles, pairs, name) matches Some(k) ==> k < n,
    decreases pairs.len(),
{
    if pairs.len() > 0 {
        if let Some(target) = pairs[0].1.text() {
            handle_is_linked(handles, interpreter::reference_handle(target), n);
        }
        reference_is_linked(handles, pairs.drop_first(), name, n);
    }
}

proof fn pattern_keeps(g: Graphics, q: ast::RequestView, r: usize)
    requires
        is_linked(g),
        interpreter::has_room(g),
    ensures
        is_linked(interpreter::pattern_applied(g, q, r)),
{
    reveal(interpreter::pattern_applied);
    let h = interpreter::pattern_applied(g, q, r);
    let params = q.params(requests::params_start(q));
    let n = g.patterns.len();
    reference_is_linked(g.handles, params, "color1"@, n);
    reference_is_linked(g.handles, params, "color2"@, n);
    reference_is_linked(g.handles, params, "mix"@, n);
    reference_is_linked(g.handles, params, "inputRGB"@, n);
    if let Some(node) = interpreter::pattern_node(g.handles, q, r) {
        assert(pattern_linked(node, n));
    }
    assert(extends(g, h));
    if g.defining is Some {
        entries_stay_linked((g.defining->0).1, extent(g), extent(h));
    }
    more_keeps_linked(g, h);
}

proof fn name_index_bound(names: Seq<Seq<char>>, name: Seq<char>)
    ensures
        binary::name_index(names, name) <= names.len(),
    decreases names.len(),
{
    if names.len() > 0 && names[0] != name {
        name_index_bound(names.drop_first(), name);
    }
}

/// Bindings name parameters and patterns that are there, and nothing but warnings changes.
proof fn bindings_are_linked(g: Graphics, pairs: Seq<(Seq<char>, ast::ValueView)>, n: int)
    requires
        forall|i: int| 0 <= i < g.handles.len() ==> (#[trigger] g.handles[i]).1 < g.patterns.len(),
        g.bindable.len() < usize::MAX,
    ensures
        bindings_linked(interpreter::bound_until(g, pairs, n).1, extent(g)),
        interpreter::bound_until(g, pairs, n).0 == (Graphics {
            warnings: interpreter::bound_until(g, pairs, n).0.warnings,
            ..g
        }),
    decreases n,
{
    if n > 0 {
        bindings_are_linked(g, pairs, n - 1);
        let (h, before) = interpreter::bound_until(g, pairs, n - 1);
        let pair = pairs[n - 1];
        if let Some(target) = pair.1.text() {
            name_index_bound(h.bindable, ast::token_name(pair.0));
            handle_is_linked(h.handles, interpreter::reference_handle(target), g.patterns.len());
        }
        let after = interpreter::bound_until(g, pairs, n).1;
        let e = extent(g);
        assert forall|i: int| 0 <= i < after.len() implies (#[trigger] after[i]).0 < e.bindable
            && after[i].1 < e.patterns by {
            if i < before.len() {
                assert(before[i].0 < e.bindable && before[i].1 < e.patterns);
                assert(after[i] == before[i]);
            }
        }
    }
}

proof fn bxdf_keeps(g: Graphics, q: ast::RequestView, r: usize)
    requires
        is_linked(g),
        is_countable(g),
    ensures
        is_linked(interpreter::bxdf_applied(g, q, r)),
{
    reveal(interpreter::bxdf_applied);
    let h = interpreter::bxdf_applied(g, q, r);
    let name = requests::or_default(q.text(0), ""@);
    let params = q.params(requests::params_start(q));
    let g1 = Graphics {
        state: GraphicsState { hair: None, bxdf: Some(g.bxdfs.len() as usize), ..g.state },
        ..g
    };
    let g2 = if name == "PxrSurface"@ {
        g1
    } else {
        interpreter::warned(g1, WarningKind::UnknownBxdf, name)
    };
    bindings_are_linked(g2, params, params.len() as int);
    if name != "PxrMarschnerHair"@ {
        bindings_stay_linked(
            interpreter::bound_until(g2, params, params.len() as int).1,
            extent(g),
            extent(h),
        );
    }
    assert(extends(g, h));
    if g.defining is Some {
        entries_stay_linked((g.defining->0).1, extent(g), extent(h));
    }
    more_keeps_linked(g, h);
}

proof fn polygons_keep(
    g: Graphics,
    pool: Seq<ast::RequestView>,
    q: ast::RequestView,
    first: int,
    deformed: Option<Seq<u64>>,
)
    requires
        is_linked(g),
        is_countable(g),
    ensures
        is_linked(interpreter::polygons_applied(g, pool, q, first, deformed)),
{
    reveal(interpreter::polygons_applied);
    warning_keeps(g, WarningKind::PolygonsWithoutPositions, ""@);
    warning_keeps(g, WarningKind::PolygonNormals, ""@);
    if let Some(m) = requests::polygon_mesh(q, first, deformed) {
        let source = scene::MeshSourceView::Polygons(m);
        mesh_keeps(g, pool, source);
        mesh_keeps(
            interpreter::warned(g, WarningKind::PolygonsWithoutPositions, ""@),
            pool,
            source,
        );
        mesh_keeps(interpreter::warned(g, WarningKind::PolygonNormals, ""@), pool, source);
    }
}

proof fn general_polygons_keep(
    g: Graphics,
    pool: Seq<ast::RequestView>,
    q: ast::RequestView,
    deformed: Option<Seq<u64>>,
)
    requires
        is_linked(g),
        is_countable(g),
    ensures
        is_linked(interpreter::general_polygons_applied(g, pool, q, deformed)),
{
    reveal(interpreter::general_polygons_applied);
    warning_keeps(g, WarningKind::Holes, ""@);
    polygons_keep(g, pool, q, 1, deformed);
    polygons_keep(interpreter::warned(g, WarningKind::Holes, ""@), pool, q, 1, deformed);
}

proof fn subdivision_keeps(
    g: Graphics,
    pool: Seq<ast::RequestView>,
    q: ast::RequestView,
    kind: kinds::RequestKind,
)
    requires
        is_linked(g),
        is_countable(g),
    ensures
        is_linked(interpreter::subdivision_applied(g, pool, q, kind)),
{
    reveal(interpreter::subdivision_applied);
    let g0 = if kind is HierarchicalSubdivisionMesh {
        interpreter::warned(g, WarningKind::Hierarchical, ""@)
    } else {
        g
    };
    warning_keeps(g, WarningKind::Hierarchical, ""@);
    if let Some(scheme) = q.text(0) {
        let g1 = if scheme == "catmull-clark"@ {
            g0
        } else {
            interpreter::warned(g0, WarningKind::SubdivisionScheme, scheme)
        };
        warning_keeps(g0, WarningKind::SubdivisionScheme, scheme);
        let tags = requests::subdivision_tags(q).0.unsupported;
        warnings_keep(g1, WarningKind::SubdivisionTag, tags);
        let g2 = interpreter::warned_each(g1, WarningKind::SubdivisionTag, tags);
        warning_keeps(g2, WarningKind::SubdivisionWithoutPositions, ""@);
        if let Some(cage) = requests::subdivision_cage(q) {
            mesh_keeps(
                g2,
                pool,
                scene::MeshSourceView::Subdivision(
                    cage,
                    interpreter::subdivision_levels(g.state.shading_rate),
                ),
            );
        }
    }
}

proof fn patches_keep(g: Graphics, pool: Seq<ast::RequestView>, q: ast::RequestView)
    requires
        is_linked(g),
        is_countable(g),
    ensures
        is_linked(interpreter::patch_applied(g, pool, q)),
        is_linked(interpreter::nu_patch_applied(g, pool, q)),
{
    reveal(interpreter::patch_applied);
    reveal(interpreter::nu_patch_applied);
    let (outcome, patch) = requests::patch_of(q, g.state.basis_u, g.state.basis_v);
    mesh_keeps(g, pool, scene::MeshSourceView::Patch(patch->0));
    let (other, surface) = requests::nu_patch_of(q);
    let h = interpreter::warned(g, WarningKind::TrimCurves, ""@);
    warning_keeps(g, WarningKind::TrimCurves, ""@);
    mesh_keeps(g, pool, scene::MeshSourceView::Nurbs(surface->0));
    mesh_keeps(h, pool, scene::MeshSourceView::Nurbs(surface->0));
}

proof fn strands_keep(g: Graphics, pool: Seq<ast::RequestView>, q: ast::RequestView)
    requires
        is_linked(g),
        is_countable(g),
    ensures
        is_linked(interpreter::strands_applied(g, pool, q)),
        is_linked(interpreter::particles_applied(g, pool, q)),
{
    reveal(interpreter::strands_applied);
    reveal(interpreter::particles_applied);
    let h = interpreter::warned(g, WarningKind::PeriodicCurves, ""@);
    warning_keeps(g, WarningKind::PeriodicCurves, ""@);
    if let Some(s) = requests::strands_of(q) {
        let source = scene::CurveSourceView::Strands(s, g.state.basis_v);
        curves_keep(g, pool, source);
        curves_keep(h, pool, source);
    }
    if let Some(p) = requests::particles_of(q) {
        curves_keep(g, pool, scene::CurveSourceView::Particles(p));
    }
}

/// A handle names a definition whose entries are there.
proof fn definition_is_linked(
    definitions: Seq<(Seq<char>, Seq<ObjectDefEntry>)>,
    name: Seq<char>,
    e: Extent,
)
    requires
        forall|i: int|
            0 <= i < definitions.len() ==> entries_linked((#[trigger] definitions[i]).1, e),
    ensures
        interpreter::last_entry(definitions, name) matches Some(d) ==> entries_linked(d, e),
    decreases definitions.len(),
{
    if definitions.len() > 0 {
        assert(entries_linked(definitions[definitions.len() - 1].1, e));
        assert forall|i: int| 0 <= i < definitions.drop_last().len() implies entries_linked(
            (#[trigger] definitions.drop_last()[i]).1,
            e,
        ) by {
            assert(entries_linked(definitions[i].1, e));
        }
        definition_is_linked(definitions.drop_last(), name, e);
    }
}

proof fn stacks_keep(g: Graphics)
    requires
        is_linked(g),
    ensures
        is_linked(interpreter::attributes_pushed(g)),
        is_linked(interpreter::attributes_popped(g)),
        is_linked(interpreter::transform_pushed(g)),
        is_linked(interpreter::transform_popped(g)),
{
    let e = extent(g);
    if g.attribute_stack.len() > 0 {
        assert(state_linked(g.attribute_stack[g.attribute_stack.len() - 1], e));
    }
    if g.transform_stack.len() > 0 {
        assert(has_transform(g.transform_stack[g.transform_stack.len() - 1], e));
    }
}

proof fn object_keeps(g: Graphics, q: ast::RequestView, kind: kinds::RequestKind)
    requires
        is_linked(g),
    ensures
        is_linked(interpreter::object_applied(g, q, kind)),
{
    reveal(interpreter::object_applied);
    let h = interpreter::object_applied(g, q, kind);
    let e = extent(g);
    stacks_keep(g);
    if kind is ObjectEnd {
        if let Some(d) = g.defining {
            let k = Graphics { definitions: g.definitions.push(d), defining: None, ..g };
            assert(extends(g, k));
            more_keeps_linked(g, k);
            stacks_keep(k);
        }
    } else if kind is ObjectInstance {
        definition_is_linked(g.definitions, interpreter::handle_of(q), e);
        assert(extends(g, h)) by {
            if let Some(entries) = interpreter::last_entry(
                g.definitions,
                interpreter::handle_of(q),
            ) {
                let added = interpreter::definition_instances(
                    entries,
                    g.transform,
                    g.state.motion,
                );
                assert forall|i: int| g.instances.len() <= i < h.instances.len() implies
                    instance_linked(#[trigger] h.instances[i], extent(h)) by {
                    assert(h.instances[i] == added[i - g.instances.len()]);
                    assert(entry_linked(entries[i - g.instances.len()], e));
                }
            }
        }
        more_keeps_linked(g, h);
    } else if kind is ObjectBegin {
        let p = interpreter::attributes_pushed(g);
        assert(h.attribute_stack == p.attribute_stack);
    }
}

proof fn here_keeps(g: Graphics, pool: Seq<ast::RequestView>, r: usize, kind: kinds::RequestKind)
    requires
        is_linked(g),
        is_countable(g),
        interpreter::has_room(g),
    ensures
        is_linked(interpreter::processed_here(g, pool, pool[r as int], r, kind)),
{
    let q = pool[r as int];
    reveal(interpreter::processed_here);
    if interpreter::is_option(kind) {
        option_keeps(g, q, r, kind);
    } else if interpreter::is_transform(kind) {
        transform_keeps(g, q, r, kind);
    } else if interpreter::is_attribute(kind) {
        attribute_keeps(g, q, r, kind);
    } else if interpreter::is_quadric(kind) {
        if let Some(k) = interpreter::quadric_of(q, kind) {
            primitive_keeps(g, pool, q.name, k);
        }
    } else if kind is ObjectBegin || kind is ObjectEnd || kind is ObjectInstance {
        object_keeps(g, q, kind);
    } else if kind is AttributeBegin || kind is AttributeEnd || kind is TransformBegin
        || kind is TransformEnd {
        stacks_keep(g);
    } else if kind is Interior || kind is Atmosphere {
        medium_keeps(g, q, kind);
    } else if kind is Light {
        light_keeps(g, q, r);
    } else if kind is Bxdf {
        bxdf_keeps(g, q, r);
    } else if kind is Pattern {
        pattern_keeps(g, q, r);
    } else if kind is Curves || kind is Points {
        strands_keep(g, pool, q);
    } else if kind is PointsPolygons {
        polygons_keep(g, pool, q, 0, None);
    } else if kind is PointsGeneralPolygons {
        general_polygons_keep(g, pool, q, None);
    } else if kind is SubdivisionMesh || kind is HierarchicalSubdivisionMesh {
        subdivision_keeps(g, pool, q, kind);
    } else if kind is PatchMesh || kind is NuPatch {
        patches_keep(g, pool, q);
    } else if kind is Polygon {
        polygon_keeps(g, pool, q);
    } else {
        reveal(interpreter::loops_applied);
        let h = interpreter::processed_here(g, pool, q, r, kind);
        assert(extends(g, h));
        if g.defining is Some {
            entries_stay_linked((g.defining->0).1, extent(g), extent(h));
        }
        more_keeps_linked(g, h);
    }
}

proof fn processing_keeps(g: Graphics, pool: Seq<ast::RequestView>, r: usize, depth: nat)
    requires
        is_linked(g),
        is_countable(g),
        interpreter::has_room(g),
    ensures
        is_linked(interpreter::processed(g, pool, r, depth).0),
{
    reveal(interpreter::processed);
    reveal(interpreter::procedural_applied);
    reveal(interpreter::archive_asked);
    here_keeps(g, pool, r, interpreter::kind_at(pool, r));
}

proof fn motion_keeps(g: Graphics, pool: Seq<ast::RequestView>, block: Seq<usize>, depth: nat)
    requires
        is_linked(g),
        is_countable(g),
        interpreter::has_room(g),
    ensures
        is_linked(interpreter::motion_resolved(g, pool, block, depth).0),
{
    reveal(interpreter::motion_resolved);
    if block.len() > 0 {
        let first = block[0];
        let last = block.last();
        let q = pool[first as int];
        if interpreter::moves_transform(pool, block) {
            let k = interpreter::kind_at(pool, first);
            let g1 = interpreter::transform_applied(g, q, first, k);
            transform_keeps(g, q, first, k);
            let back = interpreter::placed_at(g1, g.transform);
            assert(g.nodes.len() <= g1.nodes.len()) by {
                reveal(interpreter::transform_applied);
            }
            assert(is_linked(back));
            let k1 = interpreter::kind_at(pool, last);
            transform_keeps(back, pool[last as int], last, k1);
            let g2 = interpreter::transform_applied(back, pool[last as int], last, k1);
            assert(g1.nodes.len() <= g2.nodes.len()) by {
                reveal(interpreter::transform_applied);
            }
        } else if interpreter::deforms_polygons(pool, block) {
            let deformed = if block.len() > 1 {
                ast::numbers_param(
                    pool[last as int].params(
                        interpreter::polygon_params(interpreter::kind_at(pool, first)),
                    ),
                    "P"@,
                )
            } else {
                None
            };
            polygons_keep(g, pool, q, 0, deformed);
            general_polygons_keep(g, pool, q, deformed);
        } else {
            let h = interpreter::warned(g, WarningKind::Motion, q.name);
            warning_keeps(g, WarningKind::Motion, q.name);
            processing_keeps(h, pool, first, depth);
        }
    }
}

// ---- laws ------------------------------------------------------------------

/// A scene without anything is linked.
pub proof fn empty_scene_is_linked(bindable: Seq<Seq<char>>)
    ensures
        is_linked(scene_builder::initial_graphics(bindable)),
{
}

/// Reading a request keeps a scene linked: whatever it refers to by index is there.
pub proof fn reading_keeps_linked(g: Graphics, pool: Seq<ast::RequestView>, r: usize, depth: nat)
    requires
        is_linked(g),
        is_countable(g),
        interpreter::has_room(g),
    ensures
        is_linked(interpreter::request_read(g, pool, r, depth).0),
{
    reveal(interpreter::request_read);
    reveal(interpreter::request_done);
    if g.recording is None && !(g.in_motion && !(interpreter::kind_at(pool, r) is MotionEnd)) {
        if interpreter::kind_at(pool, r) is MotionEnd {
            let h = Graphics { in_motion: false, motion: seq![], ..g };
            motion_keeps(h, pool, g.motion, depth);
        } else {
            processing_keeps(g, pool, r, depth);
        }
    }
}

/// A builder keeps its scene linked from step to step.
pub proof fn stepping_keeps_linked(b: scene_builder::BuilderView)
    requires
        is_linked(b.graphics),
        is_countable(b.graphics),
    ensures
        is_linked(scene_builder::stepped(b).0.graphics),
{
    if b.frames.len() > 0 && interpreter::has_room(b.graphics) {
        let (list, next) = b.frames.last();
        if next < list.len() {
            reading_keeps_linked(
                b.graphics,
                b.pool,
                list[next as int],
                (b.frames.len() - 1) as nat,
            );
        }
    }
}

/// An instance of an object adds neither meshes nor materials: it shares those of the
/// definition, one instance for each of its entries.
pub proof fn instances_share(g: Graphics, q: ast::RequestView)
    ensures
        ({
            let h = interpreter::object_applied(g, q, kinds::RequestKind::ObjectInstance);
            &&& h.meshes == g.meshes
            &&& h.materials == g.materials
            &&& interpreter::last_entry(g.definitions, interpreter::handle_of(q)) matches Some(d)
                ==> h.instances.len() == g.instances.len() + d.len() && forall|i: int|
                0 <= i < d.len() ==> (#[trigger] h.instances[g.instances.len() + i]).geometry
                    == GeomKind::Mesh(d[i].mesh) && h.instances[g.instances.len() + i].material_id
                    == d[i].material_id
        }),
{
    reveal(interpreter::object_applied);
}

} // verus!
