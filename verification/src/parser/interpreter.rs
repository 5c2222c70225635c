//! The graphics state machine: what each request does to it.
//!
//! Every request is accepted. Implemented requests take effect; state-only
//! requests are recorded; everything else warns once and is skipped.

use crate::double;
use crate::geometry::patches;
use crate::geometry::patches::{Basis, BasisUse};
use crate::math;
use crate::math::Vec3;
use crate::parser::ast;
use crate::parser::ast::{RibRequest, RibValue};
use crate::parser::binary;
use crate::parser::kinds;
use crate::parser::kinds::RequestKind;
use crate::parser::parser;
use crate::parser::requests;
use crate::parser::requests::PatchOutcome;
use crate::parser::scene;
use crate::parser::scene::{
    AreaLight, Bxdf, BxdfView, CurveSet, CurveSetView, CurveSource, DensityField, DepthOfField,
    DisplaceParams, GeomKind, GraphicsState, Instance, Light, LightScale, Material, MaterialBase, Medium,
    Mesh, MeshSource, MeshView, Motion, ObjectDefEntry, Options, PInput, PatternNode, PixelFilter,
    PrimitiveDesc, PrimitiveKind, Projection, ScreenWindow, Surface, Transform, TransformNode,
    TransformOp, Wrap,
};
use crate::text;
use vstd::prelude::*;
use vstd::string::*;

verus! {

// ---- warnings --------------------------------------------------------------

/// What a warning is about.
#[derive(Clone, Copy, Debug, PartialEq, Eq, Structural)]
pub enum WarningKind {
    /// The density of a medium is of an unknown kind.
    UnknownDensity,
    /// Exterior media do nothing.
    Exterior,
    /// A delayed archive is read at once.
    EagerArchive,
    /// A program is to be run, but none is named.
    NoProgram,
    /// A procedural of an unknown kind.
    UnknownProcedural,
    /// An instance of an object that was not defined.
    UndefinedObject,
    UnknownProjection,
    /// A material of an unknown kind, taken for the standard one.
    UnknownBxdf,
    /// A material parameter that no pattern can be bound to.
    UnboundParameter,
    /// A material refers to a pattern that does not exist.
    UndefinedPattern,
    /// Hierarchical subdivision meshes are taken for plain ones.
    Hierarchical,
    /// A displacement other than the built-in one.
    BuiltInDisplacement,
    /// Holes of polygons are ignored.
    Holes,
    /// A request that is not implemented.
    UnknownRequest,
    /// Only meshes can stand in an object definition.
    NotInObject,
    PolygonsWithoutPositions,
    PolygonNormals,
    CurvesWithoutCounts,
    PeriodicCurves,
    CurvesWithoutPositions,
    PointsWithoutPositions,
    /// A subdivision scheme other than the implemented one.
    SubdivisionScheme,
    SubdivisionTag,
    SubdivisionWithoutPositions,
    PatchWithoutPositions,
    PatchType,
    PatchGrid,
    NuPatchWithoutPositions,
    TrimCurves,
    NuPatchGrid,
    LoopsWithoutPositions,
    /// A general polygon could not be cut into triangles.
    Triangulation,
    /// Archives are nested too deeply.
    ArchiveDepth,
    ArchiveUnreadable,
    ArchiveMalformed,
    ProgramFailed,
    ProgramMalformed,
    UnknownLight,
    /// Motion of something that cannot move.
    Motion,
    UnnamedTexture,
    PatternWithoutHandle,
    UnknownPattern,
}

/// A warning: what it is about, and the name that it concerns.
#[derive(Debug)]
pub struct Warning {
    pub kind: WarningKind,
    pub name: String,
}

impl View for Warning {
    type V = (WarningKind, Seq<char>);

    open spec fn view(&self) -> (WarningKind, Seq<char>) {
        (self.kind, self.name@)
    }
}

// ---- named things ----------------------------------------------------------

/// A pattern under its handle.
#[derive(Debug)]
pub struct PatternHandle {
    pub name: String,
    pub node: u32,
}

impl View for PatternHandle {
    type V = (Seq<char>, u32);

    open spec fn view(&self) -> (Seq<char>, u32) {
        (self.name@, self.node)
    }
}

/// An object definition under its handle.
#[derive(Debug)]
pub struct ObjectDef {
    pub handle: String,
    pub entries: Vec<ObjectDefEntry>,
}

impl View for ObjectDef {
    type V = (Seq<char>, Seq<ObjectDefEntry>);

    open spec fn view(&self) -> (Seq<char>, Seq<ObjectDefEntry>) {
        (self.handle@, self.entries@)
    }
}

/// An inline archive: the requests recorded under a name, by their indices.
#[derive(Debug)]
pub struct Archive {
    pub name: String,
    pub requests: Vec<usize>,
}

impl View for Archive {
    type V = (Seq<char>, Seq<usize>);

    open spec fn view(&self) -> (Seq<char>, Seq<usize>) {
        (self.name@, self.requests@)
    }
}

/// What each element of a sequence is.
pub open spec fn views<T: View>(v: Seq<T>) -> Seq<T::V> {
    v.map_values(|x: T| x@)
}

/// What an optional value is.
pub open spec fn opt<T: View>(v: Option<T>) -> Option<T::V> {
    match v {
        Some(x) => Some(x@),
        None => None,
    }
}

/// The value that was entered last under that name.
pub open spec fn last_entry<T>(entries: Seq<(Seq<char>, T)>, name: Seq<char>) -> Option<T>
    decreases entries.len(),
{
    if entries.len() == 0 {
        None
    } else if entries.last().0 == name {
        Some(entries.last().1)
    } else {
        last_entry(entries.drop_last(), name)
    }
}

/// What the interpreter waits for from outside.
#[derive(Clone, Copy, Debug, PartialEq, Eq, Structural)]
pub enum Waiting {
    Nothing,
    /// The archive that this request names.
    Archive { request: usize },
    /// The output of the program that this request names.
    Program { request: usize },
    /// Whether the polygon of this request can be cut into triangles.
    Polygon { request: usize },
}

/// The state of the interpreter.
#[derive(Debug)]
pub struct Interpreter {
    pub options: Options,
    pub state: GraphicsState,
    pub attribute_stack: Vec<GraphicsState>,
    pub transform: Transform,
    pub transform_stack: Vec<Transform>,
    pub nodes: Vec<TransformNode>,
    pub coordinate_systems: Vec<(usize, Transform)>,
    pub recorded: Vec<usize>,
    pub warnings: Vec<Warning>,
    pub in_motion: bool,
    pub motion: Vec<usize>,
    pub archives: Vec<Archive>,
    pub recording: Option<Archive>,
    pub definitions: Vec<ObjectDef>,
    pub defining: Option<ObjectDef>,
    pub patterns: Vec<PatternNode>,
    pub handles: Vec<PatternHandle>,
    pub object_names: Vec<String>,
    pub bxdfs: Vec<Bxdf>,
    pub bindable: Vec<String>,
    pub waiting: Waiting,
    pub media: Vec<Medium>,
    pub atmosphere: Option<u32>,
    pub objects: Vec<PrimitiveDesc>,
    pub meshes: Vec<Mesh>,
    pub curve_sets: Vec<CurveSet>,
    pub instances: Vec<Instance>,
    pub lights: Vec<Light>,
    pub materials: Vec<Material>,
}

/// What the state of the interpreter is.
pub struct Graphics {
    pub options: Options,
    pub state: GraphicsState,
    pub attribute_stack: Seq<GraphicsState>,
    pub transform: Transform,
    pub transform_stack: Seq<Transform>,
    pub nodes: Seq<TransformNode>,
    pub coordinate_systems: Seq<(usize, Transform)>,
    pub recorded: Seq<usize>,
    pub warnings: Seq<(WarningKind, Seq<char>)>,
    pub in_motion: bool,
    pub motion: Seq<usize>,
    pub archives: Seq<(Seq<char>, Seq<usize>)>,
    pub recording: Option<(Seq<char>, Seq<usize>)>,
    pub definitions: Seq<(Seq<char>, Seq<ObjectDefEntry>)>,
    pub defining: Option<(Seq<char>, Seq<ObjectDefEntry>)>,
    pub patterns: Seq<PatternNode>,
    pub handles: Seq<(Seq<char>, u32)>,
    pub object_names: Seq<Seq<char>>,
    pub bxdfs: Seq<BxdfView>,
    pub bindable: Seq<Seq<char>>,
    pub waiting: Waiting,
    pub media: Seq<Medium>,
    pub atmosphere: Option<u32>,
    pub objects: Seq<PrimitiveDesc>,
    pub meshes: Seq<MeshView>,
    pub curve_sets: Seq<CurveSetView>,
    pub instances: Seq<Instance>,
    pub lights: Seq<Light>,
    pub materials: Seq<Material>,
}

impl View for Interpreter {
    type V = Graphics;

    open spec fn view(&self) -> Graphics {
        Graphics {
            options: self.options,
            state: self.state,
            attribute_stack: self.attribute_stack@,
            transform: self.transform,
            transform_stack: self.transform_stack@,
            nodes: self.nodes@,
            coordinate_systems: self.coordinate_systems@,
            recorded: self.recorded@,
            warnings: views(self.warnings@),
            in_motion: self.in_motion,
            motion: self.motion@,
            archives: views(self.archives@),
            recording: opt(self.recording),
            definitions: views(self.definitions@),
            defining: opt(self.defining),
            patterns: self.patterns@,
            handles: views(self.handles@),
            object_names: ast::string_views(self.object_names@),
            bxdfs: views(self.bxdfs@),
            bindable: ast::string_views(self.bindable@),
            waiting: self.waiting,
            media: self.media@,
            atmosphere: self.atmosphere,
            objects: self.objects@,
            meshes: views(self.meshes@),
            curve_sets: views(self.curve_sets@),
            instances: self.instances@,
            lights: self.lights@,
            materials: self.materials@,
        }
    }
}

// ---- small steps -----------------------------------------------------------

/// The warnings with one more, unless it was given before.
pub open spec fn warned(g: Graphics, kind: WarningKind, name: Seq<char>) -> Graphics {
    if g.warnings.contains((kind, name)) {
        g
    } else {
        Graphics { warnings: g.warnings.push((kind, name)), ..g }
    }
}

/// One more operation on the current transform.
pub open spec fn transformed(g: Graphics, op: TransformOp) -> Graphics {
    Graphics {
        nodes: g.nodes.push(TransformNode { parent: g.transform, op }),
        transform: Transform { node: Some(g.nodes.len() as usize) },
        ..g
    }
}

/// The current transform replaced.
pub open spec fn placed_at(g: Graphics, t: Transform) -> Graphics {
    Graphics { transform: t, ..g }
}

/// The current transform saved.
pub open spec fn transform_pushed(g: Graphics) -> Graphics {
    Graphics { transform_stack: g.transform_stack.push(g.transform), ..g }
}

/// The transform saved last restored, where there is one.
pub open spec fn transform_popped(g: Graphics) -> Graphics {
    if g.transform_stack.len() > 0 {
        Graphics {
            transform: g.transform_stack.last(),
            transform_stack: g.transform_stack.drop_last(),
            ..g
        }
    } else {
        g
    }
}

/// Attribute state and transform saved.
pub open spec fn attributes_pushed(g: Graphics) -> Graphics {
    transform_pushed(Graphics { attribute_stack: g.attribute_stack.push(g.state), ..g })
}

/// The attribute state and transform saved last restored, where there are any.
pub open spec fn attributes_popped(g: Graphics) -> Graphics {
    transform_popped(
        if g.attribute_stack.len() > 0 {
            Graphics {
                state: g.attribute_stack.last(),
                attribute_stack: g.attribute_stack.drop_last(),
                ..g
            }
        } else {
            g
        },
    )
}

/// The name under which new geometry gets its id: the one that the attributes
/// give, or a fresh one.
pub open spec fn geometry_name(g: Graphics, pool: Seq<ast::RequestView>) -> Seq<char> {
    match g.state.identifier {
        Some(r) => requests::or_default(
            ast::text_param(pool[r as int].params(1), "name"@),
            seq![],
        ),
        None => "object_"@ + text::decimal((g.object_names.len() + 1) as nat),
    }
}

/// Geometry of one name shares an id; a new name gets the next one, from 1 on.
pub open spec fn object_id(g: Graphics, pool: Seq<ast::RequestView>) -> u32 {
    (binary::name_index(g.object_names, geometry_name(g, pool)) + 1) as u32
}

/// The names of ids after new geometry got its id.
pub open spec fn id_assigned(g: Graphics, pool: Seq<ast::RequestView>) -> Graphics {
    let name = geometry_name(g, pool);
    if binary::name_index(g.object_names, name) < g.object_names.len() {
        g
    } else {
        Graphics { object_names: g.object_names.push(name), ..g }
    }
}

/// The material of new geometry: hair wins over a modern material, which wins
/// over the surface shader.
pub open spec fn current_material(g: Graphics, pool: Seq<ast::RequestView>) -> Material {
    Material {
        base: match g.state.hair {
            Some(request) => MaterialBase::Hair { request },
            None => match g.state.bxdf {
                Some(bxdf) => MaterialBase::Bxdf { bxdf },
                None => MaterialBase::Surface {
                    surface: g.state.surface,
                    color: g.state.color,
                    roughness: g.state.roughness,
                },
            },
        },
        emission: None,
        area_light: None,
        interior: g.state.interior,
        id: object_id(g, pool),
    }
}

/// One more material.
pub open spec fn material_added(g: Graphics, m: Material) -> Graphics {
    Graphics { materials: g.materials.push(m), ..g }
}

/// A primitive with the current material at the current transform; inside an
/// object definition it is refused.
#[verifier::opaque]
pub open spec fn primitive_added(
    g: Graphics,
    pool: Seq<ast::RequestView>,
    name: Seq<char>,
    kind: PrimitiveKind,
) -> Graphics {
    if g.defining is Some {
        warned(g, WarningKind::NotInObject, name)
    } else {
        let h = material_added(id_assigned(g, pool), current_material(g, pool));
        Graphics {
            objects: h.objects.push(
                PrimitiveDesc {
                    kind,
                    material_id: g.materials.len() as usize,
                    transform: g.transform,
                },
            ),
            ..h
        }
    }
}

/// A mesh with the current material, which glows where an area light is active:
/// entered into the open object definition, or placed.
#[verifier::opaque]
pub open spec fn mesh_added(
    g: Graphics,
    pool: Seq<ast::RequestView>,
    source: scene::MeshSourceView,
) -> Graphics {
    let material = Material { emission: g.state.area_light, ..current_material(g, pool) };
    let h = material_added(id_assigned(g, pool), material);
    let id = g.meshes.len() as usize;
    let h = Graphics {
        meshes: h.meshes.push(
            scene::MeshView {
                source,
                shading_rate: g.state.shading_rate,
                displace: g.state.displace,
            },
        ),
        ..h
    };
    match h.defining {
        Some((handle, entries)) => Graphics {
            defining: Some(
                (
                    handle,
                    entries.push(
                        ObjectDefEntry {
                            mesh: id,
                            local: g.transform,
                            material_id: g.materials.len() as usize,
                        },
                    ),
                ),
            ),
            ..h
        },
        None => Graphics {
            instances: h.instances.push(
                Instance {
                    geometry: GeomKind::Mesh(id),
                    material_id: g.materials.len() as usize,
                    placement: g.transform,
                    local: None,
                    motion: g.state.motion,
                },
            ),
            ..h
        },
    }
}

/// A set of curves with the current material, placed.
#[verifier::opaque]
pub open spec fn curves_added(
    g: Graphics,
    pool: Seq<ast::RequestView>,
    source: scene::CurveSourceView,
) -> Graphics {
    let h = material_added(id_assigned(g, pool), current_material(g, pool));
    Graphics {
        curve_sets: h.curve_sets.push(
            scene::CurveSetView { source, shading_rate: g.state.shading_rate },
        ),
        instances: h.instances.push(
            Instance {
                geometry: GeomKind::Curves(g.curve_sets.len() as usize),
                material_id: g.materials.len() as usize,
                placement: g.transform,
                local: None,
                motion: g.state.motion,
            },
        ),
        ..h
    }
}

/// How many times a subdivision cage is subdivided, by the shading rate.
pub open spec fn subdivision_levels(shading_rate: u64) -> u32 {
    if double::at_most(shading_rate, 0x3fc3_3333_3333_3333) {
        5
    } else if double::at_most(shading_rate, 0x3fd6_6666_6666_6666) {
        4
    } else if double::at_most(shading_rate, 0x3ff8_0000_0000_0000) {
        3
    } else if double::at_most(shading_rate, 0x4018_0000_0000_0000) {
        2
    } else {
        1
    }
}

/// How many times a subdivision cage is subdivided: 5 times up to a shading rate
/// of 0.15, then 4 up to 0.35, 3 up to 1.5, 2 up to 6, and once above.
pub fn subdiv_levels(shading_rate: u64) -> (r: u32)
    ensures
        r == subdivision_levels(shading_rate),
{
    if double::less_or_equal(shading_rate, 0x3fc3_3333_3333_3333) {
        5
    } else if double::less_or_equal(shading_rate, 0x3fd6_6666_6666_6666) {
        4
    } else if double::less_or_equal(shading_rate, 0x3ff8_0000_0000_0000) {
        3
    } else if double::less_or_equal(shading_rate, 0x4018_0000_0000_0000) {
        2
    } else {
        1
    }
}

/// The handle that a request gives: a string, or the text of a number, or "0".
pub open spec fn handle_of(q: ast::RequestView) -> Seq<char> {
    match q.text(0) {
        Some(s) => s,
        None => match q.number(0) {
            Some(n) => binary::double_text(n),
            None => "0"@,
        },
    }
}

// ---- the interpreter's own small steps -------------------------------------

/// What an interpreter needs to stay sound: what its states refer to by request
/// stands in a pool of that many requests, and its counters have room left.
pub open spec fn is_sound(g: Graphics, pool: nat) -> bool {
    &&& state_sound(g.state, pool)
    &&& forall|i: int| 0 <= i < g.attribute_stack.len() ==> state_sound(#[trigger] g.attribute_stack[i], pool)
    &&& forall|i: int| 0 <= i < g.motion.len() ==> (#[trigger] g.motion[i]) < pool
    &&& forall|i: int| 0 <= i < g.archives.len() ==> all_below(#[trigger] g.archives[i].1, pool)
    &&& g.recording is Some ==> all_below((g.recording->0).1, pool)
    &&& waiting_sound(g.waiting, pool)
}

/// What an attribute state refers to by request stands in the pool.
pub open spec fn state_sound(s: GraphicsState, pool: nat) -> bool {
    s.identifier is Some ==> s.identifier->0 < pool
}

/// What is waited for refers to a request in the pool.
pub open spec fn waiting_sound(w: Waiting, pool: nat) -> bool {
    match w {
        Waiting::Nothing => true,
        Waiting::Archive { request } => request < pool,
        Waiting::Program { request } => request < pool,
        Waiting::Polygon { request } => request < pool,
    }
}

/// Every index is below `n`.
pub open spec fn all_below(v: Seq<usize>, n: nat) -> bool {
    forall|i: int| 0 <= i < v.len() ==> #[trigger] v[i] < n
}

/// The counters that have a fixed width have room for one more request.
pub open spec fn has_room(g: Graphics) -> bool {
    g.object_names.len() < u32::MAX && g.media.len() < u32::MAX && g.patterns.len() < u32::MAX
}

proof fn views_push<T: View>(v: Seq<T>, x: T)
    ensures
        views(v.push(x)) == views(v).push(x@),
{
    assert(views(v.push(x)) =~= views(v).push(x@));
}

impl Interpreter {
    /// Gives a warning, unless it was given before.
    pub fn warn_once(&mut self, kind: WarningKind, name: &str)
        ensures
            final(self)@ == warned(old(self)@, kind, name@),
    {
        let mut i: usize = 0;
        while i < self.warnings.len()
            invariant
                self@ == old(self)@,
                i <= self.warnings@.len(),
                forall|k: int| 0 <= k < i ==> self@.warnings[k] != (kind, name@),
            decreases self.warnings@.len() - i,
        {
            assert(self@.warnings[i as int] == self.warnings@[i as int]@);
            if self.warnings[i].kind == kind && text::same_text(self.warnings[i].name.as_str(), name) {
                assert(self@.warnings.contains((kind, name@)));
                return;
            }
            i += 1;
        }
        assert(!self@.warnings.contains((kind, name@)));
        let w: Warning = Warning { kind, name: name.to_owned() };
        proof {
            views_push(self.warnings@, w);
        }
        self.warnings.push(w);
    }

    /// Adds one operation to the current transform.
    pub fn apply(&mut self, op: TransformOp)
        ensures
            final(self)@ == transformed(old(self)@, op),
    {
        let at: usize = self.nodes.len();
        self.nodes.push(TransformNode { parent: self.transform, op });
        self.transform = Transform { node: Some(at) };
    }

    fn push_transform(&mut self)
        ensures
            final(self)@ == transform_pushed(old(self)@),
    {
        self.transform_stack.push(self.transform);
    }

    fn pop_transform(&mut self)
        ensures
            final(self)@ == transform_popped(old(self)@),
    {
        match self.transform_stack.pop() {
            Some(t) => {
                self.transform = t;
            },
            None => {},
        }
    }

    fn push_attributes(&mut self)
        ensures
            final(self)@ == attributes_pushed(old(self)@),
    {
        self.attribute_stack.push(self.state);
        self.push_transform();
    }

    fn pop_attributes(&mut self)
        ensures
            final(self)@ == attributes_popped(old(self)@),
    {
        match self.attribute_stack.pop() {
            Some(s) => {
                self.state = s;
            },
            None => {},
        }
        self.pop_transform();
    }

    /// Id of new geometry, which names it where the name is new.
    pub fn assign_object_id(&mut self, pool: &Vec<RibRequest>) -> (r: u32)
        requires
            is_sound(old(self)@, pool@.len()),
            has_room(old(self)@),
        ensures
            final(self)@ == id_assigned(old(self)@, ast::request_views(pool@)),
            r == object_id(old(self)@, ast::request_views(pool@)),
            r >= 1,
    {
        let mut name: String = String::new();
        match self.state.identifier {
            Some(r) => {
                assert(ast::request_views(pool@)[r as int] == pool@[r as int]@);
                let params = pool[r].params_from(1);
                match params.get_string("name") {
                    Some(s) => {
                        name = s.to_owned();
                    },
                    None => {},
                }
                assert(name@ =~= geometry_name(self@, ast::request_views(pool@)));
            },
            None => {
                name = "object_".to_owned();
                text::push_decimal(&mut name, self.object_names.len() as u64 + 1);
            },
        }
        let at: usize = binary::find_name(&self.object_names, &name);
        if at == self.object_names.len() {
            let ghost before = ast::string_views(self.object_names@);
            let ghost nv = name@;
            self.object_names.push(name);
            assert(ast::string_views(self.object_names@) =~= before.push(nv));
        }
        (at + 1) as u32
    }

    /// The material of new geometry.
    pub fn make_material(&mut self, pool: &Vec<RibRequest>) -> (r: Material)
        requires
            is_sound(old(self)@, pool@.len()),
            has_room(old(self)@),
        ensures
            final(self)@ == id_assigned(old(self)@, ast::request_views(pool@)),
            r == current_material(old(self)@, ast::request_views(pool@)),
    {
        let base: MaterialBase = match self.state.hair {
            Some(request) => MaterialBase::Hair { request },
            None => match self.state.bxdf {
                Some(bxdf) => MaterialBase::Bxdf { bxdf },
                None => MaterialBase::Surface {
                    surface: self.state.surface,
                    color: self.state.color,
                    roughness: self.state.roughness,
                },
            },
        };
        let interior: Option<u32> = self.state.interior;
        let id: u32 = self.assign_object_id(pool);
        Material { base, emission: None, area_light: None, interior, id }
    }

    /// Adds the current material; its index.
    pub fn push_material(&mut self, pool: &Vec<RibRequest>) -> (r: usize)
        requires
            is_sound(old(self)@, pool@.len()),
            has_room(old(self)@),
        ensures
            final(self)@ == material_added(
                id_assigned(old(self)@, ast::request_views(pool@)),
                current_material(old(self)@, ast::request_views(pool@)),
            ),
            r == old(self)@.materials.len(),
    {
        let m: Material = self.make_material(pool);
        let at: usize = self.materials.len();
        self.materials.push(m);
        at
    }

    /// Adds a primitive, unless an object definition is open.
    fn add_primitive(&mut self, pool: &Vec<RibRequest>, name: &str, kind: PrimitiveKind)
        requires
            is_sound(old(self)@, pool@.len()),
            has_room(old(self)@),
        ensures
            final(self)@ == primitive_added(
                old(self)@,
                ast::request_views(pool@),
                name@,
                kind,
            ),
    {
        reveal(primitive_added);
        if self.defining.is_some() {
            self.warn_once(WarningKind::NotInObject, name);
            return;
        }
        let transform: Transform = self.transform;
        let material_id: usize = self.push_material(pool);
        self.objects.push(PrimitiveDesc { kind, material_id, transform });
    }

    /// Adds a mesh: to the open object definition, or placed.
    pub fn add_tessellated_mesh(&mut self, pool: &Vec<RibRequest>, source: MeshSource)
        requires
            is_sound(old(self)@, pool@.len()),
            has_room(old(self)@),
        ensures
            final(self)@ == mesh_added(old(self)@, ast::request_views(pool@), source@),
    {
        reveal(mesh_added);
        let mesh: usize = self.meshes.len();
        let m: Mesh = Mesh {
            source,
            shading_rate: self.state.shading_rate,
            displace: self.state.displace,
        };
        let mut material: Material = self.make_material(pool);
        material.emission = self.state.area_light;
        proof {
            views_push(self.meshes@, m);
        }
        self.meshes.push(m);
        let material_id: usize = self.materials.len();
        self.materials.push(material);
        let transform: Transform = self.transform;
        match self.defining.take() {
            Some(mut d) => {
                d.entries.push(ObjectDefEntry { mesh, local: transform, material_id });
                self.defining = Some(d);
            },
            None => {
                self.instances.push(
                    Instance {
                        geometry: GeomKind::Mesh(mesh),
                        material_id,
                        placement: transform,
                        local: None,
                        motion: self.state.motion,
                    },
                );
            },
        }
    }

    /// Adds a set of curves, placed.
    fn add_curve_set(&mut self, pool: &Vec<RibRequest>, source: CurveSource)
        requires
            is_sound(old(self)@, pool@.len()),
            has_room(old(self)@),
        ensures
            final(self)@ == curves_added(old(self)@, ast::request_views(pool@), source@),
    {
        reveal(curves_added);
        let set: CurveSet = CurveSet { source, shading_rate: self.state.shading_rate };
        let at: usize = self.curve_sets.len();
        let material_id: usize = self.push_material(pool);
        proof {
            views_push(self.curve_sets@, set);
        }
        self.curve_sets.push(set);
        self.instances.push(
            Instance {
                geometry: GeomKind::Curves(at),
                material_id,
                placement: self.transform,
                local: None,
                motion: self.state.motion,
            },
        );
    }
}

// ---- options ---------------------------------------------------------------

/// At least 1.
pub open spec fn at_least_one(n: nat) -> u32 {
    if n == 0 {
        1
    } else {
        n as u32
    }
}

/// Bits of 2: the width of a pixel filter that gives none.
pub const DEFAULT_FILTER_WIDTH: u64 = 0x4000_0000_0000_0000;

/// The options after an option request.
pub open spec fn options_after(o: Options, q: ast::RequestView, r: usize, kind: RequestKind) -> Options {
    match kind {
        RequestKind::Format => match (q.number(0), q.number(1)) {
            (Some(w), Some(h)) => Options {
                width: double::cut_to(w, u32::MAX as nat) as u32,
                height: double::cut_to(h, u32::MAX as nat) as u32,
                ..o
            },
            _ => o,
        },
        RequestKind::Projection => if q.text(0) == Some("perspective"@) {
            Options {
                projection: Projection::Perspective,
                fov: requests::or_default(ast::number_param(q.params(1), "fov"@), o.fov),
                ..o
            }
        } else if q.text(0) == Some("orthographic"@) {
            Options { projection: Projection::Orthographic, ..o }
        } else {
            o
        },
        RequestKind::DepthOfField => match (q.number(0), q.number(1), q.number(2)) {
            (Some(fstop), Some(focal_length), Some(focal_distance)) => Options {
                depth_of_field: Some(DepthOfField { fstop, focal_length, focal_distance }),
                ..o
            },
            _ => o,
        },
        RequestKind::Shutter => match (q.number(0), q.number(1)) {
            (Some(open), Some(close)) => Options {
                shutter_open: open,
                shutter_close: close,
                ..o
            },
            _ => o,
        },
        RequestKind::PixelFilter => if q.text(0) is Some {
            let x_width = requests::or_default(q.number(1), DEFAULT_FILTER_WIDTH);
            Options {
                pixel_filter: PixelFilter {
                    request: Some(r),
                    x_width,
                    y_width: requests::or_default(q.number(2), x_width),
                },
                ..o
            }
        } else {
            o
        },
        RequestKind::ScreenWindow => match (q.number(0), q.number(1), q.number(2), q.number(3)) {
            (Some(left), Some(right), Some(bottom), Some(top)) => Options {
                screen_window: Some(ScreenWindow { left, right, bottom, top }),
                ..o
            },
            _ => o,
        },
        RequestKind::PixelSamples => match (q.number(0), q.number(1)) {
            (Some(x), Some(y)) => Options {
                samples_x: at_least_one(double::cut_to(x, u32::MAX as nat)),
                samples_y: at_least_one(double::cut_to(y, u32::MAX as nat)),
                ..o
            },
            _ => o,
        },
        RequestKind::Options => if q.text(0) == Some("background"@) {
            Options {
                background: requests::or_default(
                    requests::triple_param(q.params(1), "color"@),
                    o.background,
                ),
                ..o
            }
        } else {
            o
        },
        _ => o,
    }
}

/// Whether the request is an option request.
pub open spec fn is_option(kind: RequestKind) -> bool {
    kind is Format || kind is Projection || kind is DepthOfField || kind is Shutter
        || kind is PixelFilter || kind is ScreenWindow || kind is PixelSamples || kind is Recorded
        || kind is Options || kind is Attribute
}

/// The state after an option request.
#[verifier::opaque]
pub open spec fn option_applied(g: Graphics, q: ast::RequestView, r: usize, kind: RequestKind) -> Graphics {
    let h = Graphics { options: options_after(g.options, q, r, kind), ..g };
    match kind {
        RequestKind::Projection => match q.text(0) {
            Some(name) => if name == "perspective"@ || name == "orthographic"@ {
                h
            } else {
                warned(h, WarningKind::UnknownProjection, name)
            },
            None => h,
        },
        RequestKind::Recorded => Graphics { recorded: h.recorded.push(r), ..h },
        RequestKind::Options => if q.text(0) is Some {
            Graphics { recorded: h.recorded.push(r), ..h }
        } else {
            h
        },
        RequestKind::Attribute => match q.text(0) {
            Some(category) => {
                let k = Graphics { recorded: h.recorded.push(r), ..h };
                // A name groups geometry under one id.
                if category == "identifier"@ && ast::text_param(q.params(1), "name"@) is Some {
                    Graphics {
                        state: GraphicsState { identifier: Some(r), ..k.state },
                        ..k
                    }
                } else {
                    k
                }
            },
            None => h,
        },
        _ => h,
    }
}

fn text_is(v: Option<&str>, wanted: &str) -> (r: bool)
    ensures
        r == (ast::opt_text(v) == Some(wanted@)),
{
    match v {
        Some(s) => text::same_text(s, wanted),
        None => false,
    }
}

fn at_least_one_exec(n: u32) -> (r: u32)
    ensures
        r == at_least_one(n as nat),
{
    if n == 0 {
        1
    } else {
        n
    }
}

fn options_after_exec(o: Options, q: &RibRequest, r: usize, kind: RequestKind) -> (n: Options)
    ensures
        n == options_after(o, q@, r, kind),
{
    let mut n: Options = o;
    match kind {
        RequestKind::Format => {
            if let (Some(w), Some(h)) = (q.number(0), q.number(1)) {
                n.width = double::to_u32(w);
                n.height = double::to_u32(h);
            }
        },
        RequestKind::Projection => {
            if text_is(q.string(0), "perspective") {
                n.projection = Projection::Perspective;
                let params = q.params_from(1);
                n.fov = requests::number_or(&params, "fov", o.fov);
            } else if text_is(q.string(0), "orthographic") {
                n.projection = Projection::Orthographic;
            }
        },
        RequestKind::DepthOfField => {
            if let (Some(fstop), Some(focal_length), Some(focal_distance)) = (
                q.number(0),
                q.number(1),
                q.number(2),
            ) {
                n.depth_of_field = Some(DepthOfField { fstop, focal_length, focal_distance });
            }
        },
        RequestKind::Shutter => {
            if let (Some(open), Some(close)) = (q.number(0), q.number(1)) {
                n.shutter_open = open;
                n.shutter_close = close;
            }
        },
        RequestKind::PixelFilter => {
            if q.string(0).is_some() {
                let x_width: u64 = match q.number(1) {
                    Some(w) => w,
                    None => DEFAULT_FILTER_WIDTH,
                };
                let y_width: u64 = match q.number(2) {
                    Some(w) => w,
                    None => x_width,
                };
                n.pixel_filter = PixelFilter { request: Some(r), x_width, y_width };
            }
        },
        RequestKind::ScreenWindow => {
            if let (Some(left), Some(right), Some(bottom), Some(top)) = (
                q.number(0),
                q.number(1),
                q.number(2),
                q.number(3),
            ) {
                n.screen_window = Some(ScreenWindow { left, right, bottom, top });
            }
        },
        RequestKind::PixelSamples => {
            if let (Some(x), Some(y)) = (q.number(0), q.number(1)) {
                n.samples_x = at_least_one_exec(double::to_u32(x));
                n.samples_y = at_least_one_exec(double::to_u32(y));
            }
        },
        RequestKind::Options => {
            if text_is(q.string(0), "background") {
                let params = q.params_from(1);
                n.background = requests::triple_or(&params, "color", o.background);
            }
        },
        _ => {},
    }
    n
}

// ---- transforms ------------------------------------------------------------

/// Whether the request changes or saves the current transform.
pub open spec fn is_transform(kind: RequestKind) -> bool {
    kind is Identity || kind is Transform || kind is ConcatTransform || kind is Translate
        || kind is Rotate || kind is Scale
}

/// The three numbers from index `i` on.
pub open spec fn three_numbers(q: ast::RequestView, i: int) -> Option<Vec3> {
    match (q.number(i), q.number(i + 1), q.number(i + 2)) {
        (Some(x), Some(y), Some(z)) => Some(Vec3::of(x, y, z)),
        _ => None,
    }
}

/// Whether the first value holds the 16 numbers of a matrix.
pub open spec fn has_matrix(q: ast::RequestView) -> bool {
    q.numbers(0) is Some && q.numbers(0)->0.len() == 16
}

/// The state after a transform request.
#[verifier::opaque]
pub open spec fn transform_applied(g: Graphics, q: ast::RequestView, r: usize, kind: RequestKind) -> Graphics {
    match kind {
        RequestKind::Identity => placed_at(g, Transform { node: None }),
        RequestKind::Transform => if has_matrix(q) {
            transformed(g, TransformOp::Replace { request: r })
        } else {
            g
        },
        RequestKind::ConcatTransform => if has_matrix(q) {
            transformed(g, TransformOp::Concat { request: r })
        } else {
            g
        },
        RequestKind::Translate => match three_numbers(q, 0) {
            Some(by) => transformed(g, TransformOp::Translate { by }),
            None => g,
        },
        RequestKind::Rotate => match (q.number(0), three_numbers(q, 1)) {
            (Some(angle), Some(axis)) => transformed(g, TransformOp::Rotate { angle, axis }),
            _ => g,
        },
        RequestKind::Scale => match three_numbers(q, 0) {
            Some(by) => transformed(g, TransformOp::Scale { by }),
            None => g,
        },
        _ => g,
    }
}

fn three_numbers_exec(q: &RibRequest, i: usize) -> (r: Option<Vec3>)
    requires
        i <= 1000,
    ensures
        r == three_numbers(q@, i as int),
{
    match (q.number(i), q.number(i + 1), q.number(i + 2)) {
        (Some(x), Some(y), Some(z)) => Some(Vec3::new(x, y, z)),
        _ => None,
    }
}

fn has_matrix_exec(q: &RibRequest) -> (r: bool)
    ensures
        r == has_matrix(q@),
{
    match q.numbers(0) {
        Some(m) => m.len() == 16,
        None => false,
    }
}

// ---- attributes ------------------------------------------------------------

/// Bits of 0.1: the roughness of a surface that gives none.
pub const DEFAULT_ROUGHNESS: u64 = 0x3fb9_9999_9999_999a;

/// Whether the request sets attributes.
pub open spec fn is_attribute(kind: RequestKind) -> bool {
    kind is Basis || kind is Color || kind is Opacity || kind is Surface || kind is Orientation
        || kind is ReverseOrientation || kind is Sides || kind is ShadingRate
        || kind is AreaLightSource || kind is Displace
}

/// The surface shader of that name; an unknown one is matte.
pub open spec fn surface_named(name: Seq<char>) -> Surface {
    if name == "plastic"@ {
        Surface::Plastic
    } else if name == "metal"@ {
        Surface::Metal
    } else {
        Surface::Matte
    }
}

/// The basis in value `i` of request `r` (a name, or 16 numbers), with the step in
/// the value after it.
pub open spec fn basis_at(q: ast::RequestView, r: usize, i: int) -> Option<BasisUse> {
    if 0 <= i < q.values.len() {
        match q.values[i] {
            ast::ValueView::Text(name) => match patches::named_basis(name) {
                Some(b) => Some(
                    BasisUse {
                        basis: b.basis,
                        step: match q.number(i + 1) {
                            Some(s) => double::cut_to(s, usize::MAX as nat) as usize,
                            None => b.step,
                        },
                    },
                ),
                None => None,
            },
            v => match v.numbers() {
                Some(m) => if m.len() == 16 {
                    Some(
                        BasisUse {
                            basis: Basis::Given { request: r, value: i as usize },
                            step: match q.number(i + 1) {
                                Some(s) => double::cut_to(s, usize::MAX as nat) as usize,
                                None => 1,
                            },
                        },
                    )
                } else {
                    None
                },
                None => None,
            },
        }
    } else {
        None
    }
}

/// The parameters of the built-in displacement, from `d` where they are not given.
pub open spec fn displacement(d: DisplaceParams, params: Seq<(Seq<char>, ast::ValueView)>) -> DisplaceParams {
    DisplaceParams {
        amplitude: requests::or_default(ast::number_param(params, "amplitude"@), d.amplitude),
        frequency: requests::or_default(ast::number_param(params, "frequency"@), d.frequency),
        octaves: match ast::number_param(params, "octaves"@) {
            Some(v) => double::cut_to(v, u32::MAX as nat) as u32,
            None => d.octaves,
        },
        gain: requests::or_default(ast::number_param(params, "gain"@), d.gain),
        lacunarity: requests::or_default(ast::number_param(params, "lacunarity"@), d.lacunarity),
        offset: requests::or_default(requests::triple_param(params, "offset"@), d.offset),
    }
}

/// The displacement where nothing is given: amplitude 0.1, frequency 1, 4 octaves,
/// gain 0.5, lacunarity 2, no offset.
pub open spec fn default_displacement() -> DisplaceParams {
    DisplaceParams {
        amplitude: 0x3fb9_9999_9999_999a,
        frequency: math::ONE,
        octaves: 4,
        gain: math::HALF,
        lacunarity: 0x4000_0000_0000_0000,
        offset: Vec3::of(0, 0, 0),
    }
}

/// The attribute state after an attribute request.
pub open spec fn state_after(s: GraphicsState, q: ast::RequestView, r: usize, kind: RequestKind) -> GraphicsState {
    match kind {
        RequestKind::Basis => GraphicsState {
            basis_u: requests::or_default(basis_at(q, r, 0), s.basis_u),
            basis_v: requests::or_default(basis_at(q, r, 2), s.basis_v),
            ..s
        },
        RequestKind::Color => GraphicsState {
            color: requests::or_default(requests::color_of(q), s.color),
            ..s
        },
        RequestKind::Opacity => GraphicsState {
            opacity: requests::or_default(requests::color_of(q), s.opacity),
            ..s
        },
        RequestKind::Surface => match q.text(0) {
            Some(name) => GraphicsState {
                surface: surface_named(name),
                roughness: requests::or_default(
                    ast::number_param(q.params(1), "roughness"@),
                    DEFAULT_ROUGHNESS,
                ),
                ..s
            },
            None => s,
        },
        RequestKind::Orientation => GraphicsState {
            reverse_orientation: q.text(0) != Some("outside"@),
            ..s
        },
        RequestKind::ReverseOrientation => GraphicsState {
            reverse_orientation: !s.reverse_orientation,
            ..s
        },
        RequestKind::Sides => match q.number(0) {
            Some(n) => GraphicsState { sides: double::cut_to(n, u32::MAX as nat) as u32, ..s },
            None => s,
        },
        RequestKind::ShadingRate => GraphicsState {
            shading_rate: requests::or_default(q.number(0), s.shading_rate),
            ..s
        },
        RequestKind::AreaLightSource => {
            let params = q.params(requests::params_start(q));
            GraphicsState {
                area_light: Some(
                    AreaLight {
                        intensity: requests::or_default(
                            ast::number_param(params, "intensity"@),
                            math::ONE,
                        ),
                        color: requests::or_default(
                            requests::triple_param(params, "lightcolor"@),
                            Vec3::of(math::ONE, math::ONE, math::ONE),
                        ),
                    },
                ),
                ..s
            }
        },
        RequestKind::Displace => GraphicsState {
            displace: Some(
                displacement(default_displacement(), q.params(requests::params_start(q))),
            ),
            ..s
        },
        _ => s,
    }
}

/// The state after an attribute request; only the built-in displacement exists.
#[verifier::opaque]
pub open spec fn attribute_applied(g: Graphics, q: ast::RequestView, r: usize, kind: RequestKind) -> Graphics {
    let h = Graphics { state: state_after(g.state, q, r, kind), ..g };
    if kind is Displace && q.text(0) != Some("noise"@) {
        warned(
            h,
            WarningKind::BuiltInDisplacement,
            requests::or_default(q.text(0), ""@),
        )
    } else {
        h
    }
}

fn basis_at_exec(q: &RibRequest, r: usize, i: usize) -> (b: Option<BasisUse>)
    requires
        i <= 1000,
    ensures
        b == basis_at(q@, r, i as int),
{
    if i >= q.values.len() {
        return None;
    }
    let step: Option<u64> = q.number(i + 1);
    assert(q@.values[i as int] == q.values@[i as int]@);
    if let RibValue::String(name) = &q.values[i] {
        return match patches::basis_by_name(name.as_str()) {
            Some(b) => Some(
                BasisUse {
                    basis: b.basis,
                    step: match step {
                        Some(s) => double::to_usize(s),
                        None => b.step,
                    },
                },
            ),
            None => None,
        };
    }
    match q.values[i].as_numbers() {
        Some(m) => if m.len() == 16 {
            Some(
                BasisUse {
                    basis: Basis::Given { request: r, value: i },
                    step: match step {
                        Some(s) => double::to_usize(s),
                        None => 1,
                    },
                },
            )
        } else {
            None
        },
        None => None,
    }
}

fn displacement_exec(d: DisplaceParams, params: &ast::ParamList<'_>) -> (r: DisplaceParams)
    ensures
        r == displacement(d, params@),
{
    DisplaceParams {
        amplitude: requests::number_or(params, "amplitude", d.amplitude),
        frequency: requests::number_or(params, "frequency", d.frequency),
        octaves: match params.get_number("octaves") {
            Some(v) => double::to_u32(v),
            None => d.octaves,
        },
        gain: requests::number_or(params, "gain", d.gain),
        lacunarity: requests::number_or(params, "lacunarity", d.lacunarity),
        offset: requests::triple_or(params, "offset", d.offset),
    }
}

fn state_after_exec(s: GraphicsState, q: &RibRequest, r: usize, kind: RequestKind) -> (n: GraphicsState)
    ensures
        n == state_after(s, q@, r, kind),
{
    let mut n: GraphicsState = s;
    match kind {
        RequestKind::Basis => {
            if let Some(b) = basis_at_exec(q, r, 0) {
                n.basis_u = b;
            }
            if let Some(b) = basis_at_exec(q, r, 2) {
                n.basis_v = b;
            }
        },
        RequestKind::Color => {
            if let Some(c) = requests::color_from(q) {
                n.color = c;
            }
        },
        RequestKind::Opacity => {
            if let Some(c) = requests::color_from(q) {
                n.opacity = c;
            }
        },
        RequestKind::Surface => {
            if let Some(name) = q.string(0) {
                n.surface = if text::same_text(name, "plastic") {
                    Surface::Plastic
                } else if text::same_text(name, "metal") {
                    Surface::Metal
                } else {
                    Surface::Matte
                };
                let params = q.params_from(1);
                n.roughness = requests::number_or(&params, "roughness", DEFAULT_ROUGHNESS);
            }
        },
        RequestKind::Orientation => {
            n.reverse_orientation = !text_is(q.string(0), "outside");
        },
        RequestKind::ReverseOrientation => {
            n.reverse_orientation = !s.reverse_orientation;
        },
        RequestKind::Sides => {
            if let Some(v) = q.number(0) {
                n.sides = double::to_u32(v);
            }
        },
        RequestKind::ShadingRate => {
            if let Some(v) = q.number(0) {
                n.shading_rate = v;
            }
        },
        RequestKind::AreaLightSource => {
            let params = q.params_from(requests::params_start_exec(q));
            n.area_light = Some(
                AreaLight {
                    intensity: requests::number_or(&params, "intensity", math::ONE),
                    color: requests::triple_or(&params, "lightcolor", Vec3::one()),
                },
            );
        },
        RequestKind::Displace => {
            let params = q.params_from(requests::params_start_exec(q));
            let d: DisplaceParams = DisplaceParams {
                amplitude: 0x3fb9_9999_9999_999a,
                frequency: math::ONE,
                octaves: 4,
                gain: math::HALF,
                lacunarity: 0x4000_0000_0000_0000,
                offset: Vec3::zero(),
            };
            n.displace = Some(displacement_exec(d, &params));
        },
        _ => {},
    }
    n
}

impl Interpreter {
    fn option_request(&mut self, q: &RibRequest, r: usize, kind: RequestKind)
        requires
            is_option(kind),
        ensures
            final(self)@ == option_applied(old(self)@, q@, r, kind),
    {
        reveal(option_applied);
        self.options = options_after_exec(self.options, q, r, kind);
        match kind {
            RequestKind::Projection => {
                if let Some(name) = q.string(0) {
                    if !text::same_text(name, "perspective") && !text::same_text(name, "orthographic") {
                        self.warn_once(WarningKind::UnknownProjection, name);
                    }
                }
            },
            RequestKind::Recorded => {
                self.recorded.push(r);
            },
            RequestKind::Options => {
                if q.string(0).is_some() {
                    self.recorded.push(r);
                }
            },
            RequestKind::Attribute => {
                if let Some(category) = q.string(0) {
                    self.recorded.push(r);
                    if text::same_text(category, "identifier") {
                        let params = q.params_from(1);
                        if params.get_string("name").is_some() {
                            self.state.identifier = Some(r);
                        }
                    }
                }
            },
            _ => {},
        }
    }

    fn transform_request(&mut self, q: &RibRequest, r: usize, kind: RequestKind)
        ensures
            final(self)@ == transform_applied(old(self)@, q@, r, kind),
    {
        reveal(transform_applied);
        match kind {
            RequestKind::Identity => {
                self.transform = Transform { node: None };
            },
            RequestKind::Transform => {
                if has_matrix_exec(q) {
                    self.apply(TransformOp::Replace { request: r });
                }
            },
            RequestKind::ConcatTransform => {
                if has_matrix_exec(q) {
                    self.apply(TransformOp::Concat { request: r });
                }
            },
            RequestKind::Translate => {
                if let Some(by) = three_numbers_exec(q, 0) {
                    self.apply(TransformOp::Translate { by });
                }
            },
            RequestKind::Rotate => {
                if let (Some(angle), Some(axis)) = (q.number(0), three_numbers_exec(q, 1)) {
                    self.apply(TransformOp::Rotate { angle, axis });
                }
            },
            RequestKind::Scale => {
                if let Some(by) = three_numbers_exec(q, 0) {
                    self.apply(TransformOp::Scale { by });
                }
            },
            _ => {},
        }
    }

    fn attribute_request(&mut self, q: &RibRequest, r: usize, kind: RequestKind)
        ensures
            final(self)@ == attribute_applied(old(self)@, q@, r, kind),
    {
        reveal(attribute_applied);
        self.state = state_after_exec(self.state, q, r, kind);
        if matches!(kind, RequestKind::Displace) && !text_is(q.string(0), "noise") {
            let name: &str = match q.string(0) {
                Some(s) => s,
                None => "",
            };
            self.warn_once(WarningKind::BuiltInDisplacement, name);
        }
    }
}

// ---- media -----------------------------------------------------------------

/// The medium that a request describes: absorption 0.1, scattering 0.5 and the
/// other parameters where they are not given; an atmosphere ends after 1200 units.
pub open spec fn medium_of(q: ast::RequestView, kind: RequestKind) -> Medium {
    let params = q.params(1);
    let density = ast::text_param(params, "density"@);
    let cloud = DisplaceParams {
        amplitude: math::ONE,
        frequency: 0x3fd3_3333_3333_3333,
        octaves: 5,
        gain: 0x3fe1_9999_9999_999a,
        lacunarity: 0x4000_0000_0000_0000,
        offset: Vec3::of(0, 0, 0),
    };
    Medium {
        sigma_a: requests::or_default(
            requests::triple_param(params, "sigma_a"@),
            Vec3::of(0x3fb9_9999_9999_999a, 0x3fb9_9999_9999_999a, 0x3fb9_9999_9999_999a),
        ),
        sigma_s: requests::or_default(
            requests::triple_param(params, "sigma_s"@),
            Vec3::of(math::HALF, math::HALF, math::HALF),
        ),
        g: requests::or_default(ast::number_param(params, "g"@), 0),
        density: if density == Some("fbm"@) || density == Some("noise"@) {
            Some(
                DensityField {
                    params: DisplaceParams {
                        amplitude: cloud.amplitude,
                        offset: cloud.offset,
                        ..displacement(cloud, params)
                    },
                    coverage: requests::or_default(
                        ast::number_param(params, "coverage"@),
                        math::HALF,
                    ),
                    sharpness: requests::or_default(
                        ast::number_param(params, "sharpness"@),
                        0x4010_0000_0000_0000,
                    ),
                },
            )
        } else {
            None
        },
        emission: requests::or_default(
            requests::triple_param(params, "emission"@),
            Vec3::of(0, 0, 0),
        ),
        max_distance: requests::or_default(
            ast::number_param(params, "maxdistance"@),
            if kind is Atmosphere { 0x4092_c000_0000_0000 } else { 0x7ff0_0000_0000_0000 },
        ),
    }
}

/// The state after a medium request: the medium fills the geometry that follows,
/// or the whole scene.
#[verifier::opaque]
pub open spec fn medium_applied(g: Graphics, q: ast::RequestView, kind: RequestKind) -> Graphics {
    let density = ast::text_param(q.params(1), "density"@);
    let h = match density {
        Some(name) => if name == "fbm"@ || name == "noise"@ {
            g
        } else {
            warned(g, WarningKind::UnknownDensity, name)
        },
        None => g,
    };
    let k = Graphics { media: h.media.push(medium_of(q, kind)), ..h };
    let at = g.media.len() as u32;
    if kind is Atmosphere {
        Graphics { atmosphere: Some(at), ..k }
    } else {
        Graphics { state: GraphicsState { interior: Some(at), ..k.state }, ..k }
    }
}

fn medium_from(q: &RibRequest, kind: RequestKind) -> (r: Medium)
    ensures
        r == medium_of(q@, kind),
{
    let params = q.params_from(1);
    let cloud: DisplaceParams = DisplaceParams {
        amplitude: math::ONE,
        frequency: 0x3fd3_3333_3333_3333,
        octaves: 5,
        gain: 0x3fe1_9999_9999_999a,
        lacunarity: 0x4000_0000_0000_0000,
        offset: Vec3::zero(),
    };
    let density: Option<DensityField> = if text_is(params.get_string("density"), "fbm") || text_is(
        params.get_string("density"),
        "noise",
    ) {
        let mut field: DisplaceParams = displacement_exec(cloud, &params);
        field.amplitude = cloud.amplitude;
        field.offset = cloud.offset;
        Some(
            DensityField {
                params: field,
                coverage: requests::number_or(&params, "coverage", math::HALF),
                sharpness: requests::number_or(&params, "sharpness", 0x4010_0000_0000_0000),
            },
        )
    } else {
        None
    };
    let tenth: u64 = 0x3fb9_9999_9999_999a;
    let extent: u64 = if matches!(kind, RequestKind::Atmosphere) {
        0x4092_c000_0000_0000
    } else {
        0x7ff0_0000_0000_0000
    };
    Medium {
        sigma_a: requests::triple_or(&params, "sigma_a", Vec3::new(tenth, tenth, tenth)),
        sigma_s: requests::triple_or(
            &params,
            "sigma_s",
            Vec3::new(math::HALF, math::HALF, math::HALF),
        ),
        g: requests::number_or(&params, "g", 0),
        density,
        emission: requests::triple_or(&params, "emission", Vec3::zero()),
        max_distance: requests::number_or(&params, "maxdistance", extent),
    }
}

// ---- lights ----------------------------------------------------------------

/// The classic light that a request describes, where its type is known.
pub open spec fn classic_light(q: ast::RequestView) -> Option<Light> {
    let params = q.params(requests::params_start(q));
    let intensity = requests::or_default(ast::number_param(params, "intensity"@), math::ONE);
    if q.text(0) == Some("pointlight"@) {
        Some(
            Light::Point {
                from: requests::or_default(
                    requests::triple_param(params, "from"@),
                    Vec3::of(0, 0, 0),
                ),
                intensity,
            },
        )
    } else if q.text(0) == Some("distantlight"@) {
        Some(
            Light::Distant {
                from: requests::or_default(
                    requests::triple_param(params, "from"@),
                    Vec3::of(0, 0, 0xc024_0000_0000_0000),
                ),
                to: requests::or_default(
                    requests::triple_param(params, "to"@),
                    Vec3::of(0, 0, 0),
                ),
                intensity,
            },
        )
    } else {
        None
    }
}

/// The classic light that a request describes, where its type is known.
pub fn parse_light(q: &RibRequest) -> (r: Option<Light>)
    ensures
        r == classic_light(q@),
{
    let params = q.params_from(requests::params_start_exec(q));
    let intensity: u64 = requests::number_or(&params, "intensity", math::ONE);
    if text_is(q.string(0), "pointlight") {
        Some(Light::Point { from: requests::triple_or(&params, "from", Vec3::zero()), intensity })
    } else if text_is(q.string(0), "distantlight") {
        Some(
            Light::Distant {
                from: requests::triple_or(&params, "from", Vec3::new(0, 0, 0xc024_0000_0000_0000)),
                to: requests::triple_or(&params, "to", Vec3::zero()),
                intensity,
            },
        )
    } else {
        None
    }
}

/// The strength of a modern light.
pub open spec fn light_scale(q: ast::RequestView) -> LightScale {
    let params = q.params(requests::params_start(q));
    LightScale {
        intensity: requests::or_default(ast::number_param(params, "intensity"@), math::ONE),
        exposure: requests::or_default(ast::number_param(params, "exposure"@), 0),
        color: requests::or_default(
            requests::triple_param(params, "lightColor"@),
            Vec3::of(math::ONE, math::ONE, math::ONE),
        ),
    }
}

/// Bits of 360.
pub const FULL_CIRCLE: u64 = 0x4076_8000_0000_0000;

/// Bits of 0.53: the angle of extent of a distant light that gives none.
pub const SUN_ANGLE: u64 = 0x3fe0_f5c2_8f5c_28f6;

/// A modern light and the primitives that make it visible: the unit square,
/// sphere or disk of light space; lights at infinity have no body.
pub open spec fn modern_light(q: ast::RequestView, r: usize, t: Transform) -> Option<
    (Light, Seq<PrimitiveKind>),
> {
    let scale = light_scale(q);
    match q.text(0) {
        None => None,
        Some(name) => if name == "PxrRectLight"@ {
            let a = Vec3::of(math::MINUS_HALF, math::MINUS_HALF, 0);
            let b = Vec3::of(math::HALF, math::MINUS_HALF, 0);
            let c = Vec3::of(math::HALF, math::HALF, 0);
            let d = Vec3::of(math::MINUS_HALF, math::HALF, 0);
            Some(
                (
                    Light::Rect { transform: t, scale },
                    seq![
                        PrimitiveKind::Triangle { v0: a, v1: b, v2: c },
                        PrimitiveKind::Triangle { v0: a, v1: c, v2: d },
                    ],
                ),
            )
        } else if name == "PxrSphereLight"@ {
            Some(
                (
                    Light::Sphere { transform: t, scale },
                    seq![
                        PrimitiveKind::Sphere {
                            radius: math::HALF,
                            zmin: math::MINUS_HALF,
                            zmax: math::HALF,
                            thetamax: FULL_CIRCLE,
                        },
                    ],
                ),
            )
        } else if name == "PxrDiskLight"@ {
            Some(
                (
                    Light::Disk { transform: t, scale },
                    seq![
                        PrimitiveKind::Disk {
                            height: 0,
                            radius: math::HALF,
                            thetamax: FULL_CIRCLE,
                        },
                    ],
                ),
            )
        } else if name == "PxrDistantLight"@ {
            Some(
                (
                    Light::Sun {
                        transform: t,
                        scale,
                        angle: requests::or_default(
                            ast::number_param(
                                q.params(requests::params_start(q)),
                                "angleExtent"@,
                            ),
                            SUN_ANGLE,
                        ),
                    },
                    seq![],
                ),
            )
        } else if name == "PxrDomeLight"@ {
            Some((Light::Dome { request: r, scale }, seq![]))
        } else {
            None
        },
    }
}

/// Each kind as a primitive with this material and transform.
pub open spec fn bodies(kinds: Seq<PrimitiveKind>, material_id: usize, t: Transform) -> Seq<
    PrimitiveDesc,
> {
    kinds.map_values(|kind: PrimitiveKind| PrimitiveDesc { kind, material_id, transform: t })
}

/// The state after a modern light request: a light with a body adds an emitter
/// material that names the light.
#[verifier::opaque]
pub open spec fn light_applied(g: Graphics, q: ast::RequestView, r: usize) -> Graphics {
    match modern_light(q, r, g.transform) {
        Some((light, kinds)) => {
            let h = Graphics { lights: g.lights.push(light), ..g };
            if kinds.len() == 0 {
                h
            } else {
                Graphics {
                    materials: g.materials.push(
                        Material {
                            base: MaterialBase::Emitter { request: r },
                            emission: None,
                            area_light: Some(g.lights.len() as usize),
                            interior: None,
                            id: 0,
                        },
                    ),
                    objects: g.objects + bodies(kinds, g.materials.len() as usize, g.transform),
                    ..h
                }
            }
        },
        None => match q.text(0) {
            Some(name) => warned(g, WarningKind::UnknownLight, name),
            None => g,
        },
    }
}

/// A modern light and the primitives that make it visible.
pub fn modern_light_from(q: &RibRequest, r: usize, t: Transform) -> (l: Option<
    (Light, Vec<PrimitiveKind>),
>)
    ensures
        match l {
            Some((light, kinds)) => modern_light(q@, r, t) == Some((light, kinds@)),
            None => modern_light(q@, r, t) is None,
        },
{
    let name: &str = match q.string(0) {
        Some(s) => s,
        None => {
            return None;
        },
    };
    let params = q.params_from(requests::params_start_exec(q));
    let scale: LightScale = LightScale {
        intensity: requests::number_or(&params, "intensity", math::ONE),
        exposure: requests::number_or(&params, "exposure", 0),
        color: requests::triple_or(&params, "lightColor", Vec3::one()),
    };
    let mut kinds: Vec<PrimitiveKind> = Vec::new();
    if text::same_text(name, "PxrRectLight") {
        let a: Vec3 = Vec3::new(math::MINUS_HALF, math::MINUS_HALF, 0);
        let b: Vec3 = Vec3::new(math::HALF, math::MINUS_HALF, 0);
        let c: Vec3 = Vec3::new(math::HALF, math::HALF, 0);
        let d: Vec3 = Vec3::new(math::MINUS_HALF, math::HALF, 0);
        kinds.push(PrimitiveKind::Triangle { v0: a, v1: b, v2: c });
        kinds.push(PrimitiveKind::Triangle { v0: a, v1: c, v2: d });
        assert(kinds@ =~= (modern_light(q@, r, t)->0).1);
        return Some((Light::Rect { transform: t, scale }, kinds));
    }
    if text::same_text(name, "PxrSphereLight") {
        kinds.push(
            PrimitiveKind::Sphere {
                radius: math::HALF,
                zmin: math::MINUS_HALF,
                zmax: math::HALF,
                thetamax: FULL_CIRCLE,
            },
        );
        assert(kinds@ =~= (modern_light(q@, r, t)->0).1);
        return Some((Light::Sphere { transform: t, scale }, kinds));
    }
    if text::same_text(name, "PxrDiskLight") {
        kinds.push(
            PrimitiveKind::Disk { height: 0, radius: math::HALF, thetamax: FULL_CIRCLE },
        );
        assert(kinds@ =~= (modern_light(q@, r, t)->0).1);
        return Some((Light::Disk { transform: t, scale }, kinds));
    }
    if text::same_text(name, "PxrDistantLight") {
        let angle: u64 = requests::number_or(&params, "angleExtent", SUN_ANGLE);
        assert(kinds@ =~= (modern_light(q@, r, t)->0).1);
        return Some((Light::Sun { transform: t, scale, angle }, kinds));
    }
    if text::same_text(name, "PxrDomeLight") {
        assert(kinds@ =~= (modern_light(q@, r, t)->0).1);
        return Some((Light::Dome { request: r, scale }, kinds));
    }
    None
}

impl Interpreter {
    fn medium_request(&mut self, q: &RibRequest, kind: RequestKind)
        requires
            has_room(old(self)@),
        ensures
            final(self)@ == medium_applied(old(self)@, q@, kind),
    {
        reveal(medium_applied);
        let params = q.params_from(1);
        if let Some(name) = params.get_string("density") {
            if !text::same_text(name, "fbm") && !text::same_text(name, "noise") {
                self.warn_once(WarningKind::UnknownDensity, name);
            }
        }
        let at: u32 = self.media.len() as u32;
        self.media.push(medium_from(q, kind));
        if matches!(kind, RequestKind::Atmosphere) {
            self.atmosphere = Some(at);
        } else {
            self.state.interior = Some(at);
        }
    }

    fn build_light(&mut self, q: &RibRequest, r: usize)
        ensures
            final(self)@ == light_applied(old(self)@, q@, r),
    {
        reveal(light_applied);
        let transform: Transform = self.transform;
        match modern_light_from(q, r, transform) {
            Some((light, kinds)) => {
                let light_index: usize = self.lights.len();
                self.lights.push(light);
                if kinds.len() > 0 {
                    let material_id: usize = self.materials.len();
                    self.materials.push(
                        Material {
                            base: MaterialBase::Emitter { request: r },
                            emission: None,
                            area_light: Some(light_index),
                            interior: None,
                            id: 0,
                        },
                    );
                    let ghost before = self@;
                    let ghost all = bodies(kinds@, material_id, transform);
                    let mut i: usize = 0;
                    assert(before.objects + all.subrange(0, 0) =~= before.objects);
                    while i < kinds.len()
                        invariant
                            i <= kinds@.len(),
                            all == bodies(kinds@, material_id, transform),
                            self@ == (Graphics {
                                objects: before.objects + all.subrange(0, i as int),
                                ..before
                            }),
                        decreases kinds@.len() - i,
                    {
                        self.objects.push(PrimitiveDesc { kind: kinds[i], material_id, transform });
                        assert(self.objects@ =~= before.objects + all.subrange(0, i + 1));
                        i += 1;
                    }
                    assert(all.subrange(0, i as int) =~= all);
                }
            },
            None => {
                if let Some(name) = q.string(0) {
                    self.warn_once(WarningKind::UnknownLight, name);
                }
            },
        }
    }
}

// ---- materials and patterns ------------------------------------------------

/// The pattern handle in a reference: what stands before its first colon.
pub open spec fn reference_handle(target: Seq<char>) -> Seq<char> {
    target.subrange(0, parser::find_char(target, 0, ':'))
}

/// Whether a token is declared as a reference to a pattern.
pub open spec fn is_reference(token: Seq<char>) -> bool {
    ast::words(token).contains("reference"@)
}

/// The pattern handle in a reference.
pub fn handle_in(target: &str) -> (r: String)
    ensures
        r@ == reference_handle(target@),
{
    let chars: Vec<char> = text::chars_of(target);
    let mut i: usize = 0;
    while i < chars.len() && chars[i] != ':'
        invariant
            i <= chars@.len(),
            parser::find_char(chars@, 0, ':') == parser::find_char(chars@, i as int, ':'),
        decreases chars@.len() - i,
    {
        i += 1;
    }
    text::string_of(&chars, 0, i)
}

/// Material parameters bound to patterns, and the warnings given on the way, after
/// one more parameter: a reference to a known pattern binds a bindable parameter.
pub open spec fn bound_one(
    g: Graphics,
    bindings: Seq<(usize, u32)>,
    pair: (Seq<char>, ast::ValueView),
) -> (Graphics, Seq<(usize, u32)>) {
    if !is_reference(pair.0) {
        (g, bindings)
    } else {
        match pair.1.text() {
            None => (g, bindings),
            Some(target) => {
                let param = ast::token_name(pair.0);
                let handle = reference_handle(target);
                let field = binary::name_index(g.bindable, param);
                if field == g.bindable.len() {
                    (warned(g, WarningKind::UnboundParameter, param), bindings)
                } else {
                    match last_entry(g.handles, handle) {
                        Some(node) => (g, bindings.push((field as usize, node))),
                        None => (warned(g, WarningKind::UndefinedPattern, handle), bindings),
                    }
                }
            },
        }
    }
}

/// Material parameters bound to patterns, after the first `n` parameters.
pub open spec fn bound_until(
    g: Graphics,
    pairs: Seq<(Seq<char>, ast::ValueView)>,
    n: int,
) -> (Graphics, Seq<(usize, u32)>)
    decreases n,
{
    if n <= 0 {
        (g, seq![])
    } else {
        let (h, bindings) = bound_until(g, pairs, n - 1);
        bound_one(h, bindings, pairs[n - 1])
    }
}

/// The state after a material request: hair, or a material whose parameters may be
/// bound to patterns.
#[verifier::opaque]
pub open spec fn bxdf_applied(g: Graphics, q: ast::RequestView, r: usize) -> Graphics {
    let kind = requests::or_default(q.text(0), ""@);
    if kind == "PxrMarschnerHair"@ {
        Graphics { state: GraphicsState { hair: Some(r), bxdf: None, ..g.state }, ..g }
    } else {
        let params = q.params(requests::params_start(q));
        let g1 = Graphics {
            state: GraphicsState {
                hair: None,
                bxdf: Some(g.bxdfs.len() as usize),
                ..g.state
            },
            ..g
        };
        let g2 = if kind == "PxrSurface"@ {
            g1
        } else {
            warned(g1, WarningKind::UnknownBxdf, kind)
        };
        let (g3, bindings) = bound_until(g2, params, params.len() as int);
        Graphics { bxdfs: g3.bxdfs.push(BxdfView { request: r, bindings }), ..g3 }
    }
}

/// The node that a pattern input refers to: the first parameter of that name that
/// is declared as a reference and names a known pattern.
pub open spec fn referenced_node(
    handles: Seq<(Seq<char>, u32)>,
    pairs: Seq<(Seq<char>, ast::ValueView)>,
    name: Seq<char>,
) -> Option<u32>
    decreases pairs.len(),
{
    if pairs.len() == 0 {
        None
    } else {
        let (token, value) = pairs[0];
        let node = if is_reference(token) && ast::token_name(token) == name {
            match value.text() {
                Some(target) => last_entry(handles, reference_handle(target)),
                None => None,
            }
        } else {
            None
        };
        match node {
            Some(n) => Some(n),
            None => referenced_node(handles, pairs.drop_first(), name),
        }
    }
}

/// A pattern parameter: a reference to an earlier pattern, or a constant (one
/// number stands for all three components).
pub open spec fn pattern_input(
    handles: Seq<(Seq<char>, u32)>,
    pairs: Seq<(Seq<char>, ast::ValueView)>,
    name: Seq<char>,
    default: Vec3,
) -> PInput {
    match referenced_node(handles, pairs, name) {
        Some(n) => PInput::Node(n),
        None => match ast::numbers_param(pairs, name) {
            Some(v) => if v.len() >= 3 {
                PInput::Const(Vec3::of(v[0], v[1], v[2]))
            } else if v.len() > 0 {
                PInput::Const(Vec3::of(v[0], v[0], v[0]))
            } else {
                PInput::Const(default)
            },
            None => PInput::Const(default),
        },
    }
}

/// How a texture continues beyond its edge, by name; an unknown name repeats it.
pub open spec fn wrap_named(name: Option<Seq<char>>) -> Wrap {
    if name == Some("clamp"@) {
        Wrap::Clamp
    } else if name == Some("black"@) {
        Wrap::Black
    } else {
        Wrap::Periodic
    }
}

/// Whether a texture pattern names its file.
pub open spec fn names_file(params: Seq<(Seq<char>, ast::ValueView)>) -> bool {
    match ast::text_param(params, "filename"@) {
        Some(f) => f.len() > 0,
        None => false,
    }
}

/// The node that a pattern request describes.
pub open spec fn pattern_node(
    handles: Seq<(Seq<char>, u32)>,
    q: ast::RequestView,
    r: usize,
) -> Option<PatternNode> {
    let kind = requests::or_default(q.text(0), ""@);
    let params = q.params(requests::params_start(q));
    let one = Vec3::of(math::ONE, math::ONE, math::ONE);
    let zero = Vec3::of(0, 0, 0);
    let half = Vec3::of(math::HALF, math::HALF, math::HALF);
    if kind == "PxrTexture"@ || kind == "texture"@ {
        Some(
            PatternNode::Texture {
                request: r,
                named: names_file(params),
                wrap: wrap_named(ast::text_param(params, "wrapMode"@)),
                scale_s: requests::or_default(ast::number_param(params, "scaleS"@), math::ONE),
                scale_t: requests::or_default(ast::number_param(params, "scaleT"@), math::ONE),
            },
        )
    } else if kind == "PxrChecker"@ || kind == "checker"@ {
        Some(
            PatternNode::Checker {
                color_a: requests::or_default(requests::triple_param(params, "colorA"@), one),
                color_b: requests::or_default(requests::triple_param(params, "colorB"@), zero),
                scale_s: requests::or_default(
                    ast::number_param(params, "sScale"@),
                    0x4020_0000_0000_0000,
                ),
                scale_t: requests::or_default(
                    ast::number_param(params, "tScale"@),
                    0x4020_0000_0000_0000,
                ),
            },
        )
    } else if kind == "PxrFractal"@ || kind == "fractal"@ || kind == "noise"@ {
        Some(
            PatternNode::Fractal {
                frequency: requests::or_default(ast::number_param(params, "frequency"@), math::ONE),
                octaves: double::cut_to(
                    requests::or_default(ast::number_param(params, "layers"@), 0x4010_0000_0000_0000),
                    u32::MAX as nat,
                ) as u32,
                gain: requests::or_default(ast::number_param(params, "gain"@), math::HALF),
                lacunarity: requests::or_default(
                    ast::number_param(params, "lacunarity"@),
                    0x4000_0000_0000_0000,
                ),
            },
        )
    } else if kind == "PxrMix"@ || kind == "mix"@ {
        Some(
            PatternNode::Mix {
                color1: pattern_input(handles, params, "color1"@, zero),
                color2: pattern_input(handles, params, "color2"@, one),
                mix: pattern_input(handles, params, "mix"@, zero),
            },
        )
    } else if kind == "PxrColorCorrect"@ || kind == "colorCorrect"@ {
        Some(
            PatternNode::ColorCorrect {
                input: pattern_input(handles, params, "inputRGB"@, half),
                gain: requests::or_default(requests::triple_param(params, "gain"@), one),
                offset: requests::or_default(requests::triple_param(params, "offset"@), zero),
                gamma: requests::or_default(ast::number_param(params, "gamma"@), math::ONE),
                saturation: requests::or_default(
                    ast::number_param(params, "saturation"@),
                    math::ONE,
                ),
            },
        )
    } else if kind == "PxrRamp"@ || kind == "ramp"@ {
        Some(
            PatternNode::Ramp {
                request: r,
                use_t: ast::text_param(params, "axis"@) == Some("t"@),
            },
        )
    } else if kind == "triplanar"@ {
        Some(
            PatternNode::Triplanar {
                request: r,
                named: names_file(params),
                wrap: wrap_named(ast::text_param(params, "wrapMode"@)),
                frequency: requests::or_default(ast::number_param(params, "frequency"@), math::ONE),
            },
        )
    } else {
        None
    }
}

/// The handle of a pattern request, which stands before its parameters.
pub open spec fn pattern_handle(q: ast::RequestView) -> Option<Seq<char>> {
    if requests::params_start(q) == 2 {
        q.text(1)
    } else {
        None
    }
}

/// Whether a pattern reads a file that it does not name.
pub open spec fn lacks_file(node: PatternNode) -> bool {
    match node {
        PatternNode::Texture { named, .. } => !named,
        PatternNode::Triplanar { named, .. } => !named,
        _ => false,
    }
}

/// The state after a pattern request: one more node, entered under its handle.
#[verifier::opaque]
pub open spec fn pattern_applied(g: Graphics, q: ast::RequestView, r: usize) -> Graphics {
    match pattern_handle(q) {
        None => warned(g, WarningKind::PatternWithoutHandle, ""@),
        Some(handle) => match pattern_node(g.handles, q, r) {
            None => warned(
                g,
                WarningKind::UnknownPattern,
                requests::or_default(q.text(0), ""@),
            ),
            Some(node) => {
                let h = if lacks_file(node) {
                    warned(g, WarningKind::UnnamedTexture, ""@)
                } else {
                    g
                };
                Graphics {
                    patterns: h.patterns.push(node),
                    handles: h.handles.push((handle, g.patterns.len() as u32)),
                    ..h
                }
            },
        },
    }
}

/// The pattern that was entered last under that handle.
pub fn find_handle(handles: &Vec<PatternHandle>, name: &str) -> (r: Option<u32>)
    ensures
        r == last_entry(views(handles@), name@),
{
    let ghost all = views(handles@);
    let mut i: usize = handles.len();
    assert(all.subrange(0, i as int) =~= all);
    while i > 0
        invariant
            i <= handles@.len(),
            all == views(handles@),
            last_entry(all, name@) == last_entry(all.subrange(0, i as int), name@),
        decreases i,
    {
        proof {
            let part = all.subrange(0, i as int);
            assert(part.last() == handles@[i - 1]@);
            assert(part.drop_last() =~= all.subrange(0, i - 1));
        }
        if text::same_text(handles[i - 1].name.as_str(), name) {
            return Some(handles[i - 1].node);
        }
        i -= 1;
    }
    None
}

fn referenced_node_exec(
    handles: &Vec<PatternHandle>,
    params: &ast::ParamList<'_>,
    name: &str,
) -> (r: Option<u32>)
    ensures
        r == referenced_node(views(handles@), params@, name@),
{
    let ghost pairs = params@;
    let mut i: usize = 0;
    assert(pairs.subrange(0, pairs.len() as int) =~= pairs);
    while i < params.len()
        invariant
            i <= params@.len(),
            pairs == params@,
            referenced_node(views(handles@), pairs, name@) == referenced_node(
                views(handles@),
                pairs.subrange(i as int, pairs.len() as int),
                name@,
            ),
        decreases params@.len() - i,
    {
        let (token, value) = params.pair(i);
        proof {
            let rest = pairs.subrange(i as int, pairs.len() as int);
            assert(rest[0] == pairs[i as int]);
            assert(rest.drop_first() =~= pairs.subrange(i + 1, pairs.len() as int));
        }
        if ast::has_word(token, "reference") && text::same_text(
            ast::last_word(token).as_str(),
            name,
        ) {
            if let Some(target) = value.as_str() {
                let handle: String = handle_in(target);
                if let Some(node) = find_handle(handles, handle.as_str()) {
                    return Some(node);
                }
            }
        }
        i += 1;
    }
    assert(pairs.subrange(i as int, pairs.len() as int) =~= seq![]);
    None
}

fn pattern_input_exec(
    handles: &Vec<PatternHandle>,
    params: &ast::ParamList<'_>,
    name: &str,
    default: Vec3,
) -> (r: PInput)
    ensures
        r == pattern_input(views(handles@), params@, name@, default),
{
    if let Some(n) = referenced_node_exec(handles, params, name) {
        return PInput::Node(n);
    }
    match params.get_numbers(name) {
        Some(v) => if v.len() >= 3 {
            PInput::Const(Vec3::new(v[0], v[1], v[2]))
        } else if v.len() > 0 {
            PInput::Const(Vec3::new(v[0], v[0], v[0]))
        } else {
            PInput::Const(default)
        },
        None => PInput::Const(default),
    }
}

fn wrap_from(name: Option<&str>) -> (r: Wrap)
    ensures
        r == wrap_named(ast::opt_text(name)),
{
    if text_is(name, "clamp") {
        Wrap::Clamp
    } else if text_is(name, "black") {
        Wrap::Black
    } else {
        Wrap::Periodic
    }
}

fn names_file_exec(params: &ast::ParamList<'_>) -> (r: bool)
    ensures
        r == names_file(params@),
{
    match params.get_string("filename") {
        Some(f) => f.unicode_len() > 0,
        None => false,
    }
}

fn pattern_node_exec(handles: &Vec<PatternHandle>, q: &RibRequest, r: usize) -> (n: Option<
    PatternNode,
>)
    ensures
        n == pattern_node(views(handles@), q@, r),
{
    let kind: &str = match q.string(0) {
        Some(s) => s,
        None => "",
    };
    let params = q.params_from(requests::params_start_exec(q));
    let half: Vec3 = Vec3::new(math::HALF, math::HALF, math::HALF);
    if text::same_text(kind, "PxrTexture") || text::same_text(kind, "texture") {
        Some(
            PatternNode::Texture {
                request: r,
                named: names_file_exec(&params),
                wrap: wrap_from(params.get_string("wrapMode")),
                scale_s: requests::number_or(&params, "scaleS", math::ONE),
                scale_t: requests::number_or(&params, "scaleT", math::ONE),
            },
        )
    } else if text::same_text(kind, "PxrChecker") || text::same_text(kind, "checker") {
        Some(
            PatternNode::Checker {
                color_a: requests::triple_or(&params, "colorA", Vec3::one()),
                color_b: requests::triple_or(&params, "colorB", Vec3::zero()),
                scale_s: requests::number_or(&params, "sScale", 0x4020_0000_0000_0000),
                scale_t: requests::number_or(&params, "tScale", 0x4020_0000_0000_0000),
            },
        )
    } else if text::same_text(kind, "PxrFractal") || text::same_text(kind, "fractal")
        || text::same_text(kind, "noise") {
        Some(
            PatternNode::Fractal {
                frequency: requests::number_or(&params, "frequency", math::ONE),
                octaves: double::to_u32(
                    requests::number_or(&params, "layers", 0x4010_0000_0000_0000),
                ),
                gain: requests::number_or(&params, "gain", math::HALF),
                lacunarity: requests::number_or(&params, "lacunarity", 0x4000_0000_0000_0000),
            },
        )
    } else if text::same_text(kind, "PxrMix") || text::same_text(kind, "mix") {
        Some(
            PatternNode::Mix {
                color1: pattern_input_exec(handles, &params, "color1", Vec3::zero()),
                color2: pattern_input_exec(handles, &params, "color2", Vec3::one()),
                mix: pattern_input_exec(handles, &params, "mix", Vec3::zero()),
            },
        )
    } else if text::same_text(kind, "PxrColorCorrect") || text::same_text(kind, "colorCorrect") {
        Some(
            PatternNode::ColorCorrect {
                input: pattern_input_exec(handles, &params, "inputRGB", half),
                gain: requests::triple_or(&params, "gain", Vec3::one()),
                offset: requests::triple_or(&params, "offset", Vec3::zero()),
                gamma: requests::number_or(&params, "gamma", math::ONE),
                saturation: requests::number_or(&params, "saturation", math::ONE),
            },
        )
    } else if text::same_text(kind, "PxrRamp") || text::same_text(kind, "ramp") {
        Some(PatternNode::Ramp { request: r, use_t: text_is(params.get_string("axis"), "t") })
    } else if text::same_text(kind, "triplanar") {
        Some(
            PatternNode::Triplanar {
                request: r,
                named: names_file_exec(&params),
                wrap: wrap_from(params.get_string("wrapMode")),
                frequency: requests::number_or(&params, "frequency", math::ONE),
            },
        )
    } else {
        None
    }
}

fn lacks_file_exec(node: PatternNode) -> (r: bool)
    ensures
        r == lacks_file(node),
{
    match node {
        PatternNode::Texture { named, .. } => !named,
        PatternNode::Triplanar { named, .. } => !named,
        _ => false,
    }
}

impl Interpreter {
    /// Binds one material parameter to a pattern, where it asks for that.
    fn bind_parameter(&mut self, bindings: &mut Vec<(usize, u32)>, token: &str, value: &RibValue)
        ensures
            (final(self)@, final(bindings)@) == bound_one(
                old(self)@,
                old(bindings)@,
                (token@, value@),
            ),
    {
        if !ast::has_word(token, "reference") {
            return;
        }
        let target: &str = match value.as_str() {
            Some(s) => s,
            None => {
                return;
            },
        };
        let param: String = ast::last_word(token);
        let handle: String = handle_in(target);
        let field: usize = binary::find_name(&self.bindable, &param);
        if field == self.bindable.len() {
            self.warn_once(WarningKind::UnboundParameter, param.as_str());
            return;
        }
        match find_handle(&self.handles, handle.as_str()) {
            Some(node) => {
                bindings.push((field, node));
            },
            None => {
                self.warn_once(WarningKind::UndefinedPattern, handle.as_str());
            },
        }
    }

    fn bxdf_request(&mut self, q: &RibRequest, r: usize)
        ensures
            final(self)@ == bxdf_applied(old(self)@, q@, r),
    {
        reveal(bxdf_applied);
        let kind: &str = match q.string(0) {
            Some(s) => s,
            None => "",
        };
        if text::same_text(kind, "PxrMarschnerHair") {
            self.state.hair = Some(r);
            self.state.bxdf = None;
            return;
        }
        self.state.hair = None;
        self.state.bxdf = Some(self.bxdfs.len());
        if !text::same_text(kind, "PxrSurface") {
            self.warn_once(WarningKind::UnknownBxdf, kind);
        }
        let params = q.params_from(requests::params_start_exec(q));
        let ghost start = self@;
        let mut bindings: Vec<(usize, u32)> = Vec::new();
        let mut i: usize = 0;
        assert(bindings@ =~= seq![]);
        while i < params.len()
            invariant
                i <= params@.len(),
                (self@, bindings@) == bound_until(start, params@, i as int),
            decreases params@.len() - i,
        {
            let (token, value) = params.pair(i);
            self.bind_parameter(&mut bindings, token, value);
            i += 1;
        }
        let b: Bxdf = Bxdf { request: r, bindings };
        proof {
            views_push(self.bxdfs@, b);
        }
        self.bxdfs.push(b);
    }

    fn pattern_request(&mut self, q: &RibRequest, r: usize)
        requires
            has_room(old(self)@),
        ensures
            final(self)@ == pattern_applied(old(self)@, q@, r),
    {
        reveal(pattern_applied);
        let handle: Option<&str> = if requests::params_start_exec(q) == 2 {
            q.string(1)
        } else {
            None
        };
        let handle: &str = match handle {
            Some(s) => s,
            None => {
                self.warn_once(WarningKind::PatternWithoutHandle, "");
                return;
            },
        };
        match pattern_node_exec(&self.handles, q, r) {
            None => {
                let kind: &str = match q.string(0) {
                    Some(s) => s,
                    None => "",
                };
                self.warn_once(WarningKind::UnknownPattern, kind);
            },
            Some(node) => {
                let at: u32 = self.patterns.len() as u32;
                if lacks_file_exec(node) {
                    self.warn_once(WarningKind::UnnamedTexture, "");
                }
                self.patterns.push(node);
                let h: PatternHandle = PatternHandle { name: handle.to_owned(), node: at };
                proof {
                    views_push(self.handles@, h);
                }
                self.handles.push(h);
            },
        }
    }
}

// ---- primitives ------------------------------------------------------------

/// The quadric that a request describes.
pub open spec fn quadric_of(q: ast::RequestView, kind: RequestKind) -> Option<PrimitiveKind> {
    match kind {
        RequestKind::Sphere => match (q.number(0), q.number(1), q.number(2), q.number(3)) {
            (Some(radius), Some(zmin), Some(zmax), Some(thetamax)) => Some(
                PrimitiveKind::Sphere { radius, zmin, zmax, thetamax },
            ),
            _ => None,
        },
        RequestKind::Cylinder => match (q.number(0), q.number(1), q.number(2), q.number(3)) {
            (Some(radius), Some(zmin), Some(zmax), Some(thetamax)) => Some(
                PrimitiveKind::Cylinder { radius, zmin, zmax, thetamax },
            ),
            _ => None,
        },
        RequestKind::Cone => match (q.number(0), q.number(1), q.number(2)) {
            (Some(height), Some(radius), Some(thetamax)) => Some(
                PrimitiveKind::Cone { height, radius, thetamax },
            ),
            _ => None,
        },
        RequestKind::Torus => match (
            q.number(0),
            q.number(1),
            q.number(2),
            q.number(3),
            q.number(4),
        ) {
            (
                Some(major_radius),
                Some(minor_radius),
                Some(phimin),
                Some(phimax),
                Some(thetamax),
            ) => Some(
                PrimitiveKind::Torus { major_radius, minor_radius, phimin, phimax, thetamax },
            ),
            _ => None,
        },
        RequestKind::Disk => match (q.number(0), q.number(1), q.number(2)) {
            (Some(height), Some(radius), Some(thetamax)) => Some(
                PrimitiveKind::Disk { height, radius, thetamax },
            ),
            _ => None,
        },
        RequestKind::Paraboloid => match (q.number(0), q.number(1), q.number(2), q.number(3)) {
            (Some(rmax), Some(zmin), Some(zmax), Some(thetamax)) => Some(
                PrimitiveKind::Paraboloid { rmax, zmin, zmax, thetamax },
            ),
            _ => None,
        },
        RequestKind::Hyperboloid => match (
            three_numbers(q, 0),
            three_numbers(q, 3),
            q.number(6),
        ) {
            (Some(p1), Some(p2), Some(thetamax)) => Some(
                PrimitiveKind::Hyperboloid { p1, p2, thetamax },
            ),
            _ => None,
        },
        _ => None,
    }
}

/// The quadric that a request describes, where all its numbers are there.
pub fn quadric_from(q: &RibRequest, kind: RequestKind) -> (r: Option<PrimitiveKind>)
    ensures
        r == quadric_of(q@, kind),
{
    match kind {
        RequestKind::Sphere => match (q.number(0), q.number(1), q.number(2), q.number(3)) {
            (Some(radius), Some(zmin), Some(zmax), Some(thetamax)) => Some(
                PrimitiveKind::Sphere { radius, zmin, zmax, thetamax },
            ),
            _ => None,
        },
        RequestKind::Cylinder => match (q.number(0), q.number(1), q.number(2), q.number(3)) {
            (Some(radius), Some(zmin), Some(zmax), Some(thetamax)) => Some(
                PrimitiveKind::Cylinder { radius, zmin, zmax, thetamax },
            ),
            _ => None,
        },
        RequestKind::Cone => match (q.number(0), q.number(1), q.number(2)) {
            (Some(height), Some(radius), Some(thetamax)) => Some(
                PrimitiveKind::Cone { height, radius, thetamax },
            ),
            _ => None,
        },
        RequestKind::Torus => match (
            q.number(0),
            q.number(1),
            q.number(2),
            q.number(3),
            q.number(4),
        ) {
            (
                Some(major_radius),
                Some(minor_radius),
                Some(phimin),
                Some(phimax),
                Some(thetamax),
            ) => Some(
                PrimitiveKind::Torus { major_radius, minor_radius, phimin, phimax, thetamax },
            ),
            _ => None,
        },
        RequestKind::Disk => match (q.number(0), q.number(1), q.number(2)) {
            (Some(height), Some(radius), Some(thetamax)) => Some(
                PrimitiveKind::Disk { height, radius, thetamax },
            ),
            _ => None,
        },
        RequestKind::Paraboloid => match (q.number(0), q.number(1), q.number(2), q.number(3)) {
            (Some(rmax), Some(zmin), Some(zmax), Some(thetamax)) => Some(
                PrimitiveKind::Paraboloid { rmax, zmin, zmax, thetamax },
            ),
            _ => None,
        },
        RequestKind::Hyperboloid => match (
            three_numbers_exec(q, 0),
            three_numbers_exec(q, 3),
            q.number(6),
        ) {
            (Some(p1), Some(p2), Some(thetamax)) => Some(
                PrimitiveKind::Hyperboloid { p1, p2, thetamax },
            ),
            _ => None,
        },
        _ => None,
    }
}

/// The triangles of a polygon: its first vertex with each of its other edges.
pub open spec fn polygon_triangles(p: Seq<u64>, material_id: usize, t: Transform) -> Seq<PrimitiveDesc> {
    Seq::new(
        (p.len() / 3 - 2) as nat,
        |k: int|
            PrimitiveDesc {
                kind: PrimitiveKind::Triangle {
                    v0: math::triple(p, 0),
                    v1: math::triple(p, k + 1),
                    v2: math::triple(p, k + 2),
                },
                material_id,
                transform: t,
            },
    )
}

/// The state after a polygon request: triangles of one material, which glows where
/// an area light is active; a glowing quadrilateral is also a light.
#[verifier::opaque]
pub open spec fn polygon_applied(g: Graphics, pool: Seq<ast::RequestView>, q: ast::RequestView) -> Graphics {
    match ast::numbers_param(q.params(0), "P"@) {
        None => g,
        Some(p) => if p.len() < 9 {
            g
        } else if g.defining is Some {
            warned(g, WarningKind::NotInObject, q.name)
        } else {
            let sampled = g.state.area_light is Some && p.len() == 12;
            let m = Material {
                emission: g.state.area_light,
                area_light: if sampled { Some(g.lights.len() as usize) } else { None },
                ..current_material(g, pool)
            };
            let h = material_added(id_assigned(g, pool), m);
            Graphics {
                lights: if sampled {
                    g.lights.push(
                        Light::Quad {
                            corner: math::triple(p, 0),
                            end1: math::triple(p, 1),
                            end2: math::triple(p, 3),
                            transform: g.transform,
                            light: g.state.area_light->0,
                        },
                    )
                } else {
                    g.lights
                },
                objects: g.objects + polygon_triangles(p, g.materials.len() as usize, g.transform),
                ..h
            }
        },
    }
}

// ---- meshes and curves -----------------------------------------------------

/// The state after a polygon mesh request, its values counted from `first` on.
#[verifier::opaque]
pub open spec fn polygons_applied(
    g: Graphics,
    pool: Seq<ast::RequestView>,
    q: ast::RequestView,
    first: int,
    deformed: Option<Seq<u64>>,
) -> Graphics {
    let h = if requests::polygon_lacks_positions(q, first) {
        warned(g, WarningKind::PolygonsWithoutPositions, ""@)
    } else if requests::polygon_normals_mismatch(q, first) {
        warned(g, WarningKind::PolygonNormals, ""@)
    } else {
        g
    };
    match requests::polygon_mesh(q, first, deformed) {
        Some(m) => mesh_added(h, pool, scene::MeshSourceView::Polygons(m)),
        None => h,
    }
}

/// Whether any of the counts is not 1.
pub open spec fn has_holes(counts: Seq<u64>) -> bool {
    exists|i: int| 0 <= i < counts.len() && requests::count_of(#[trigger] counts[i]) != 1
}

/// The state after a general polygon mesh request: only outer loops count.
#[verifier::opaque]
pub open spec fn general_polygons_applied(
    g: Graphics,
    pool: Seq<ast::RequestView>,
    q: ast::RequestView,
    deformed: Option<Seq<u64>>,
) -> Graphics {
    match q.numbers(0) {
        None => g,
        Some(counts) => polygons_applied(
            if has_holes(counts) { warned(g, WarningKind::Holes, ""@) } else { g },
            pool,
            q,
            1,
            deformed,
        ),
    }
}

/// A warning for each name, in order.
pub open spec fn warned_each(g: Graphics, kind: WarningKind, names: Seq<Seq<char>>) -> Graphics
    decreases names.len(),
{
    if names.len() == 0 {
        g
    } else {
        warned(warned_each(g, kind, names.drop_last()), kind, names.last())
    }
}

/// The state after a subdivision mesh request.
#[verifier::opaque]
pub open spec fn subdivision_applied(
    g: Graphics,
    pool: Seq<ast::RequestView>,
    q: ast::RequestView,
    kind: RequestKind,
) -> Graphics {
    let g0 = if kind is HierarchicalSubdivisionMesh {
        warned(g, WarningKind::Hierarchical, ""@)
    } else {
        g
    };
    match q.text(0) {
        None => g0,
        Some(scheme) => {
            let g1 = if scheme == "catmull-clark"@ {
                g0
            } else {
                warned(g0, WarningKind::SubdivisionScheme, scheme)
            };
            if !requests::subdivision_arrays(q) {
                g1
            } else {
                let g2 = warned_each(
                    g1,
                    WarningKind::SubdivisionTag,
                    requests::subdivision_tags(q).0.unsupported,
                );
                match requests::subdivision_cage(q) {
                    Some(cage) => mesh_added(
                        g2,
                        pool,
                        scene::MeshSourceView::Subdivision(
                            cage,
                            subdivision_levels(g.state.shading_rate),
                        ),
                    ),
                    None => warned(g2, WarningKind::SubdivisionWithoutPositions, ""@),
                }
            }
        },
    }
}

/// The state after a patch request.
#[verifier::opaque]
pub open spec fn patch_applied(g: Graphics, pool: Seq<ast::RequestView>, q: ast::RequestView) -> Graphics {
    let (outcome, patch) = requests::patch_of(q, g.state.basis_u, g.state.basis_v);
    match outcome {
        PatchOutcome::Incomplete => g,
        PatchOutcome::NoPositions => warned(g, WarningKind::PatchWithoutPositions, q.name),
        PatchOutcome::UnknownType => warned(
            warned(g, WarningKind::PatchType, q.name + " "@ + q.text(0)->0),
            WarningKind::PatchGrid,
            q.name,
        ),
        PatchOutcome::InvalidGrid => warned(g, WarningKind::PatchGrid, q.name),
        PatchOutcome::Built => mesh_added(g, pool, scene::MeshSourceView::Patch(patch->0)),
    }
}

/// The state after a NURBS request.
#[verifier::opaque]
pub open spec fn nu_patch_applied(g: Graphics, pool: Seq<ast::RequestView>, q: ast::RequestView) -> Graphics {
    let (outcome, patch) = requests::nu_patch_of(q);
    let h = if requests::nu_patch_trimmed(q) {
        warned(g, WarningKind::TrimCurves, ""@)
    } else {
        g
    };
    match outcome {
        PatchOutcome::Incomplete => g,
        PatchOutcome::NoPositions => warned(g, WarningKind::NuPatchWithoutPositions, ""@),
        PatchOutcome::Built => mesh_added(h, pool, scene::MeshSourceView::Nurbs(patch->0)),
        _ => warned(h, WarningKind::NuPatchGrid, ""@),
    }
}

/// The state after a general polygon request: whether it can be cut into triangles
/// is asked for.
#[verifier::opaque]
pub open spec fn loops_applied(g: Graphics, q: ast::RequestView, r: usize) -> Graphics {
    if requests::loops_lack_positions(q) {
        warned(g, WarningKind::LoopsWithoutPositions, ""@)
    } else if requests::polygon_loops(q) is Some {
        Graphics { waiting: Waiting::Polygon { request: r }, ..g }
    } else {
        g
    }
}

/// The state after a curves request.
#[verifier::opaque]
pub open spec fn strands_applied(g: Graphics, pool: Seq<ast::RequestView>, q: ast::RequestView) -> Graphics {
    if g.defining is Some {
        warned(g, WarningKind::NotInObject, "Curves"@)
    } else if q.numbers(1) is None {
        warned(g, WarningKind::CurvesWithoutCounts, ""@)
    } else {
        let h = if q.text(2) == Some("periodic"@) {
            warned(g, WarningKind::PeriodicCurves, ""@)
        } else {
            g
        };
        if ast::numbers_param(q.params(3), "P"@) is None {
            warned(h, WarningKind::CurvesWithoutPositions, ""@)
        } else {
            match requests::strands_of(q) {
                Some(s) => curves_added(
                    h,
                    pool,
                    scene::CurveSourceView::Strands(s, g.state.basis_v),
                ),
                None => h,
            }
        }
    }
}

/// The state after a points request.
#[verifier::opaque]
pub open spec fn particles_applied(g: Graphics, pool: Seq<ast::RequestView>, q: ast::RequestView) -> Graphics {
    if g.defining is Some {
        warned(g, WarningKind::NotInObject, "Points"@)
    } else {
        match requests::particles_of(q) {
            Some(p) => curves_added(g, pool, scene::CurveSourceView::Particles(p)),
            None => warned(g, WarningKind::PointsWithoutPositions, ""@),
        }
    }
}

/// Warnings leave everything else as it is.
pub proof fn warned_keeps(g: Graphics, kind: WarningKind, name: Seq<char>, pool: nat)
    ensures
        warned(g, kind, name) == (Graphics { warnings: warned(g, kind, name).warnings, ..g }),
        is_sound(g, pool) ==> is_sound(warned(g, kind, name), pool),
        has_room(g) ==> has_room(warned(g, kind, name)),
{
}

proof fn warned_each_keeps(g: Graphics, kind: WarningKind, names: Seq<Seq<char>>, pool: nat)
    ensures
        warned_each(g, kind, names) == (Graphics {
            warnings: warned_each(g, kind, names).warnings,
            ..g
        }),
        is_sound(g, pool) ==> is_sound(warned_each(g, kind, names), pool),
        has_room(g) ==> has_room(warned_each(g, kind, names)),
    decreases names.len(),
{
    if names.len() > 0 {
        warned_each_keeps(g, kind, names.drop_last(), pool);
    }
}

impl Interpreter {
    fn polygon_request(&mut self, pool: &Vec<RibRequest>, q: &RibRequest)
        requires
            is_sound(old(self)@, pool@.len()),
            has_room(old(self)@),
        ensures
            final(self)@ == polygon_applied(old(self)@, ast::request_views(pool@), q@),
    {
        reveal(polygon_applied);
        let params = q.params_from(0);
        let p: &[u64] = match params.get_numbers("P") {
            Some(p) => p,
            None => {
                return;
            },
        };
        if p.len() < 9 {
            return;
        }
        if self.defining.is_some() {
            self.warn_once(WarningKind::NotInObject, q.name.as_str());
            return;
        }
        let transform: Transform = self.transform;
        let mut m: Material = self.make_material(pool);
        m.emission = self.state.area_light;
        if let Some(light) = self.state.area_light {
            if p.len() == 12 {
                m.area_light = Some(self.lights.len());
                self.lights.push(
                    Light::Quad {
                        corner: Vec3::new(p[0], p[1], p[2]),
                        end1: Vec3::new(p[3], p[4], p[5]),
                        end2: Vec3::new(p[9], p[10], p[11]),
                        transform,
                        light,
                    },
                );
            }
        }
        let material_id: usize = self.materials.len();
        self.materials.push(m);
        let n: usize = p.len() / 3;
        let ghost before = self@;
        let ghost all = polygon_triangles(p@, material_id, transform);
        let mut i: usize = 1;
        assert(before.objects + all.subrange(0, 0) =~= before.objects);
        while i < n - 1
            invariant
                n == p@.len() / 3,
                n >= 3,
                1 <= i <= n - 1,
                all == polygon_triangles(p@, material_id, transform),
                self@ == (Graphics {
                    objects: before.objects + all.subrange(0, i - 1),
                    ..before
                }),
            decreases n - i,
        {
            self.objects.push(
                PrimitiveDesc {
                    kind: PrimitiveKind::Triangle {
                        v0: Vec3::new(p[0], p[1], p[2]),
                        v1: Vec3::new(p[3 * i], p[3 * i + 1], p[3 * i + 2]),
                        v2: Vec3::new(p[3 * i + 3], p[3 * i + 4], p[3 * i + 5]),
                    },
                    material_id,
                    transform,
                },
            );
            assert(self.objects@ =~= before.objects + all.subrange(0, i as int));
            i += 1;
        }
        assert(all.subrange(0, i - 1) =~= all);
    }

    fn points_polygons(
        &mut self,
        pool: &Vec<RibRequest>,
        q: &RibRequest,
        first: usize,
        deformed: Option<&[u64]>,
    )
        requires
            first <= 1,
            is_sound(old(self)@, pool@.len()),
            has_room(old(self)@),
        ensures
            final(self)@ == polygons_applied(
                old(self)@,
                ast::request_views(pool@),
                q@,
                first as int,
                ast::opt_numbers(deformed),
            ),
    {
        reveal(polygons_applied);
        let reply = requests::polygons_from(q, first, deformed);
        if reply.lacks_positions {
            self.warn_once(WarningKind::PolygonsWithoutPositions, "");
        } else if reply.normals_mismatch {
            self.warn_once(WarningKind::PolygonNormals, "");
        }
        if let Some(m) = reply.mesh {
            self.add_tessellated_mesh(pool, MeshSource::Polygons(m));
        }
    }

    fn points_general_polygons(
        &mut self,
        pool: &Vec<RibRequest>,
        q: &RibRequest,
        deformed: Option<&[u64]>,
    )
        requires
            is_sound(old(self)@, pool@.len()),
            has_room(old(self)@),
        ensures
            final(self)@ == general_polygons_applied(
                old(self)@,
                ast::request_views(pool@),
                q@,
                ast::opt_numbers(deformed),
            ),
    {
        reveal(general_polygons_applied);
        let counts: &[u64] = match q.numbers(0) {
            Some(c) => c,
            None => {
                return;
            },
        };
        let mut holes: bool = false;
        let mut i: usize = 0;
        while i < counts.len()
            invariant
                i <= counts@.len(),
                holes == exists|k: int|
                    0 <= k < i && requests::count_of(#[trigger] counts@[k]) != 1,
            decreases counts@.len() - i,
        {
            if double::to_usize(counts[i]) != 1 {
                holes = true;
            }
            i += 1;
        }
        if holes {
            self.warn_once(WarningKind::Holes, "");
        }
        self.points_polygons(pool, q, 1, deformed);
    }

    fn subdivision_mesh(&mut self, pool: &Vec<RibRequest>, q: &RibRequest, kind: RequestKind)
        requires
            is_sound(old(self)@, pool@.len()),
            has_room(old(self)@),
        ensures
            final(self)@ == subdivision_applied(
                old(self)@,
                ast::request_views(pool@),
                q@,
                kind,
            ),
    {
        reveal(subdivision_applied);
        if matches!(kind, RequestKind::HierarchicalSubdivisionMesh) {
            self.warn_once(WarningKind::Hierarchical, "");
        }
        let scheme: &str = match q.string(0) {
            Some(s) => s,
            None => {
                return;
            },
        };
        if !text::same_text(scheme, "catmull-clark") {
            self.warn_once(WarningKind::SubdivisionScheme, scheme);
        }
        let reply = requests::subdivision_from(q);
        if !reply.arrays {
            return;
        }
        let ghost start = self@;
        let ghost names = ast::string_views(reply.unsupported@);
        let mut i: usize = 0;
        assert(names.subrange(0, 0) =~= seq![]);
        while i < reply.unsupported.len()
            invariant
                i <= reply.unsupported@.len(),
                names == ast::string_views(reply.unsupported@),
                self@ == warned_each(
                    start,
                    WarningKind::SubdivisionTag,
                    names.subrange(0, i as int),
                ),
            decreases reply.unsupported@.len() - i,
        {
            self.warn_once(WarningKind::SubdivisionTag, reply.unsupported[i].as_str());
            assert(names.subrange(0, i + 1).drop_last() =~= names.subrange(0, i as int));
            i += 1;
        }
        proof {
            assert(names.subrange(0, i as int) =~= names);
            warned_each_keeps(start, WarningKind::SubdivisionTag, names, pool@.len());
        }
        match reply.cage {
            Some(cage) => {
                let levels: u32 = subdiv_levels(self.state.shading_rate);
                self.add_tessellated_mesh(pool, MeshSource::Subdivision(cage, levels));
            },
            None => {
                self.warn_once(WarningKind::SubdivisionWithoutPositions, "");
            },
        }
    }

    fn patch_mesh(&mut self, pool: &Vec<RibRequest>, q: &RibRequest)
        requires
            is_sound(old(self)@, pool@.len()),
            has_room(old(self)@),
        ensures
            final(self)@ == patch_applied(old(self)@, ast::request_views(pool@), q@),
    {
        reveal(patch_applied);
        let (outcome, patch) = requests::patch_from(q, self.state.basis_u, self.state.basis_v);
        match outcome {
            PatchOutcome::Incomplete => {},
            PatchOutcome::NoPositions => {
                self.warn_once(WarningKind::PatchWithoutPositions, q.name.as_str());
            },
            PatchOutcome::UnknownType => {
                let mut name: String = q.name.clone();
                name.append(" ");
                if let Some(s) = q.string(0) {
                    name.append(s);
                }
                self.warn_once(WarningKind::PatchType, name.as_str());
                self.warn_once(WarningKind::PatchGrid, q.name.as_str());
            },
            PatchOutcome::InvalidGrid => {
                self.warn_once(WarningKind::PatchGrid, q.name.as_str());
            },
            PatchOutcome::Built => {
                if let Some(p) = patch {
                    self.add_tessellated_mesh(pool, MeshSource::Patch(p));
                }
            },
        }
    }

    fn nu_patch(&mut self, pool: &Vec<RibRequest>, q: &RibRequest)
        requires
            is_sound(old(self)@, pool@.len()),
            has_room(old(self)@),
        ensures
            final(self)@ == nu_patch_applied(old(self)@, ast::request_views(pool@), q@),
    {
        reveal(nu_patch_applied);
        let reply = requests::nu_patch_from(q);
        match reply.outcome {
            PatchOutcome::Incomplete => {},
            PatchOutcome::NoPositions => {
                self.warn_once(WarningKind::NuPatchWithoutPositions, "");
            },
            outcome => {
                if reply.trimmed {
                    self.warn_once(WarningKind::TrimCurves, "");
                }
                match reply.patch {
                    Some(p) => {
                        self.add_tessellated_mesh(pool, MeshSource::Nurbs(p));
                    },
                    None => {
                        self.warn_once(WarningKind::NuPatchGrid, "");
                    },
                }
            },
        }
    }

    fn general_polygon(&mut self, q: &RibRequest, r: usize)
        ensures
            final(self)@ == loops_applied(old(self)@, q@, r),
    {
        reveal(loops_applied);
        let (loops, lacking) = requests::loops_from(q);
        if lacking {
            self.warn_once(WarningKind::LoopsWithoutPositions, "");
        } else if loops.is_some() {
            self.waiting = Waiting::Polygon { request: r };
        }
    }

    fn curves_request(&mut self, pool: &Vec<RibRequest>, q: &RibRequest)
        requires
            is_sound(old(self)@, pool@.len()),
            has_room(old(self)@),
        ensures
            final(self)@ == strands_applied(old(self)@, ast::request_views(pool@), q@),
    {
        reveal(strands_applied);
        if self.defining.is_some() {
            self.warn_once(WarningKind::NotInObject, "Curves");
            return;
        }
        let reply = requests::strands_from(q);
        if !reply.counts {
            self.warn_once(WarningKind::CurvesWithoutCounts, "");
            return;
        }
        if reply.periodic {
            self.warn_once(WarningKind::PeriodicCurves, "");
        }
        if !reply.positions {
            self.warn_once(WarningKind::CurvesWithoutPositions, "");
            return;
        }
        if let Some(s) = reply.strands {
            let basis: BasisUse = self.state.basis_v;
            self.add_curve_set(pool, CurveSource::Strands(s, basis));
        }
    }

    fn points_request(&mut self, pool: &Vec<RibRequest>, q: &RibRequest)
        requires
            is_sound(old(self)@, pool@.len()),
            has_room(old(self)@),
        ensures
            final(self)@ == particles_applied(old(self)@, ast::request_views(pool@), q@),
    {
        reveal(particles_applied);
        if self.defining.is_some() {
            self.warn_once(WarningKind::NotInObject, "Points");
            return;
        }
        match requests::particles_from(q) {
            Some(p) => {
                self.add_curve_set(pool, CurveSource::Particles(p));
            },
            None => {
                self.warn_once(WarningKind::PointsWithoutPositions, "");
            },
        }
    }
}

// ---- objects, archives and procedurals -------------------------------------

/// An instance of each entry of an object definition, at the current transform.
pub open spec fn definition_instances(
    entries: Seq<ObjectDefEntry>,
    placement: Transform,
    motion: Option<Motion>,
) -> Seq<Instance> {
    entries.map_values(
        |e: ObjectDefEntry|
            Instance {
                geometry: GeomKind::Mesh(e.mesh),
                material_id: e.material_id,
                placement,
                local: Some(e.local),
                motion,
            },
    )
}

/// The state after an object request. Inside a definition transforms are relative
/// to its start.
#[verifier::opaque]
pub open spec fn object_applied(g: Graphics, q: ast::RequestView, kind: RequestKind) -> Graphics {
    match kind {
        RequestKind::ObjectBegin => Graphics {
            defining: Some((handle_of(q), seq![])),
            ..placed_at(attributes_pushed(g), Transform { node: None })
        },
        RequestKind::ObjectEnd => attributes_popped(
            match g.defining {
                Some(d) => Graphics { definitions: g.definitions.push(d), defining: None, ..g },
                None => g,
            },
        ),
        RequestKind::ObjectInstance => match last_entry(g.definitions, handle_of(q)) {
            Some(entries) => Graphics {
                instances: g.instances + definition_instances(
                    entries,
                    g.transform,
                    g.state.motion,
                ),
                ..g
            },
            None => warned(g, WarningKind::UndefinedObject, handle_of(q)),
        },
        _ => g,
    }
}

/// How deeply archives may be nested.
pub const MAX_ARCHIVE_DEPTH: usize = 16;

/// The first string of a value.
pub open spec fn first_string(v: ast::ValueView) -> Option<Seq<char>> {
    match v {
        ast::ValueView::Text(s) => Some(s),
        ast::ValueView::Texts(v) => if v.len() > 0 {
            Some(v[0])
        } else {
            None
        },
        _ => None,
    }
}

/// The first argument of a procedural.
pub open spec fn procedural_argument(q: ast::RequestView) -> Option<Seq<char>> {
    if q.values.len() > 1 {
        first_string(q.values[1])
    } else {
        None
    }
}

/// The archive that a request names.
pub open spec fn archive_name(q: ast::RequestView) -> Option<Seq<char>> {
    if kinds::kind_of(q.name) is ReadArchive {
        q.text(0)
    } else {
        procedural_argument(q)
    }
}

/// An archive is asked for: an inline archive of that name is played (its requests
/// are the second part); else it is waited for.
#[verifier::opaque]
pub open spec fn archive_asked(g: Graphics, name: Seq<char>, r: usize, depth: nat) -> (
    Graphics,
    Option<Seq<usize>>,
) {
    if depth >= MAX_ARCHIVE_DEPTH {
        (warned(g, WarningKind::ArchiveDepth, name), None)
    } else {
        match last_entry(g.archives, name) {
            Some(list) => (g, Some(list)),
            None => (Graphics { waiting: Waiting::Archive { request: r }, ..g }, None),
        }
    }
}

/// The state after a procedural request, and what is to be played.
#[verifier::opaque]
pub open spec fn procedural_applied(g: Graphics, q: ast::RequestView, r: usize, depth: nat) -> (
    Graphics,
    Option<Seq<usize>>,
) {
    let kind = requests::or_default(q.text(0), ""@);
    if kind == "DelayedReadArchive"@ {
        let h = warned(g, WarningKind::EagerArchive, ""@);
        match procedural_argument(q) {
            Some(name) => archive_asked(h, name, r, depth),
            None => (h, None),
        }
    } else if kind == "RunProgram"@ {
        match procedural_argument(q) {
            Some(_) => (Graphics { waiting: Waiting::Program { request: r }, ..g }, None),
            None => (warned(g, WarningKind::NoProgram, ""@), None),
        }
    } else {
        (warned(g, WarningKind::UnknownProcedural, kind), None)
    }
}

// ---- all requests ----------------------------------------------------------

/// Whether the request adds a quadric.
pub open spec fn is_quadric(kind: RequestKind) -> bool {
    kind is Sphere || kind is Cylinder || kind is Cone || kind is Torus || kind is Disk
        || kind is Paraboloid || kind is Hyperboloid
}

/// The state after request `r` of the pool, and the requests that are to be played
/// next, where an archive was asked for. `depth` counts the archives being played.
/// The end of a motion block is no request of its own here.
#[verifier::opaque]
pub open spec fn processed(g: Graphics, pool: Seq<ast::RequestView>, r: usize, depth: nat) -> (
    Graphics,
    Option<Seq<usize>>,
) {
    let q = pool[r as int];
    let kind = kinds::kind_of(q.name);
    match kind {
        RequestKind::ReadArchive => match q.text(0) {
            Some(name) => archive_asked(g, name, r, depth),
            None => (g, None),
        },
        RequestKind::Procedural => procedural_applied(g, q, r, depth),
        _ => (processed_here(g, pool, q, r, kind), None),
    }
}

/// The state after a request that plays nothing.
#[verifier::opaque]
pub open spec fn processed_here(
    g: Graphics,
    pool: Seq<ast::RequestView>,
    q: ast::RequestView,
    r: usize,
    kind: RequestKind,
) -> Graphics {
    if is_option(kind) {
        option_applied(g, q, r, kind)
    } else if is_transform(kind) {
        transform_applied(g, q, r, kind)
    } else if is_attribute(kind) {
        attribute_applied(g, q, r, kind)
    } else if is_quadric(kind) {
        match quadric_of(q, kind) {
            Some(k) => primitive_added(g, pool, q.name, k),
            None => g,
        }
    } else {
        match kind {
            RequestKind::AttributeBegin => attributes_pushed(g),
            RequestKind::AttributeEnd => attributes_popped(g),
            RequestKind::TransformBegin => transform_pushed(g),
            RequestKind::TransformEnd => transform_popped(g),
            RequestKind::MotionBegin => Graphics { in_motion: true, motion: seq![], ..g },
            RequestKind::ArchiveBegin => match q.text(0) {
                Some(name) => Graphics { recording: Some((name, seq![])), ..g },
                None => g,
            },
            RequestKind::Interior => medium_applied(g, q, kind),
            RequestKind::Atmosphere => medium_applied(g, q, kind),
            RequestKind::Exterior => warned(g, WarningKind::Exterior, ""@),
            RequestKind::ObjectBegin => object_applied(g, q, kind),
            RequestKind::ObjectEnd => object_applied(g, q, kind),
            RequestKind::ObjectInstance => object_applied(g, q, kind),
            RequestKind::CoordinateSystem => if q.text(0) is Some {
                Graphics { coordinate_systems: g.coordinate_systems.push((r, g.transform)), ..g }
            } else {
                g
            },
            RequestKind::LightSource => match classic_light(q) {
                Some(l) => Graphics { lights: g.lights.push(l), ..g },
                None => g,
            },
            RequestKind::Light => light_applied(g, q, r),
            RequestKind::Bxdf => bxdf_applied(g, q, r),
            RequestKind::Pattern => pattern_applied(g, q, r),
            RequestKind::Curves => strands_applied(g, pool, q),
            RequestKind::Points => particles_applied(g, pool, q),
            RequestKind::PointsPolygons => polygons_applied(g, pool, q, 0, None),
            RequestKind::PointsGeneralPolygons => general_polygons_applied(g, pool, q, None),
            RequestKind::SubdivisionMesh => subdivision_applied(g, pool, q, kind),
            RequestKind::HierarchicalSubdivisionMesh => subdivision_applied(g, pool, q, kind),
            RequestKind::PatchMesh => patch_applied(g, pool, q),
            RequestKind::NuPatch => nu_patch_applied(g, pool, q),
            RequestKind::GeneralPolygon => loops_applied(g, q, r),
            RequestKind::Polygon => polygon_applied(g, pool, q),
            RequestKind::Unknown => warned(g, WarningKind::UnknownRequest, q.name),
            _ => g,
        }
    }
}

/// The kind of request `r`.
pub open spec fn kind_at(pool: Seq<ast::RequestView>, r: usize) -> RequestKind {
    kinds::kind_of(pool[r as int].name)
}

/// Whether a motion block moves the current transform.
pub open spec fn moves_transform(pool: Seq<ast::RequestView>, block: Seq<usize>) -> bool {
    forall|i: int| 0 <= i < block.len() ==> is_transform(kind_at(pool, #[trigger] block[i]))
}

/// Where the parameters of a polygon mesh start: behind its counts and indices, and for general
/// polygons behind their loop counts, too.
pub open spec fn polygon_params(kind: RequestKind) -> int {
    if kind is PointsPolygons {
        2
    } else {
        3
    }
}

/// Whether a motion block deforms a polygon mesh.
pub open spec fn deforms_polygons(pool: Seq<ast::RequestView>, block: Seq<usize>) -> bool {
    &&& kind_at(pool, block[0]) is PointsPolygons || kind_at(pool, block[0]) is PointsGeneralPolygons
    &&& forall|i: int|
        0 <= i < block.len() ==> kind_at(pool, #[trigger] block[i]) == kind_at(pool, block[0])
}

/// The state after a closed motion block, and what is to be played. A block of
/// transforms takes effect with its first sample and remembers both ends; a block
/// of polygon meshes takes the last sample's positions as the end of a
/// deformation; any other block is taken for its first sample.
#[verifier::opaque]
pub open spec fn motion_resolved(
    g: Graphics,
    pool: Seq<ast::RequestView>,
    block: Seq<usize>,
    depth: nat,
) -> (Graphics, Option<Seq<usize>>) {
    if block.len() == 0 {
        (g, None)
    } else {
        let first = block[0];
        let last = block.last();
        let q = pool[first as int];
        if moves_transform(pool, block) {
            let g1 = transform_applied(g, q, first, kind_at(pool, first));
            if block.len() == 1 {
                (g1, None)
            } else {
                let g2 = transform_applied(
                    placed_at(g1, g.transform),
                    pool[last as int],
                    last,
                    kind_at(pool, last),
                );
                let m = Motion { open: g1.transform, close: g2.transform };
                (
                    Graphics {
                        state: GraphicsState { motion: Some(m), ..g2.state },
                        ..placed_at(g2, g1.transform)
                    },
                    None,
                )
            }
        } else if deforms_polygons(pool, block) {
            let deformed = if block.len() > 1 {
                ast::numbers_param(
                    pool[last as int].params(polygon_params(kind_at(pool, first))),
                    "P"@,
                )
            } else {
                None
            };
            (
                if kind_at(pool, first) is PointsPolygons {
                    polygons_applied(g, pool, q, 0, deformed)
                } else {
                    general_polygons_applied(g, pool, q, deformed)
                },
                None,
            )
        } else {
            processed(warned(g, WarningKind::Motion, q.name), pool, first, depth)
        }
    }
}

/// The state after request `r`, and what is to be played.
#[verifier::opaque]
pub open spec fn request_done(g: Graphics, pool: Seq<ast::RequestView>, r: usize, depth: nat) -> (
    Graphics,
    Option<Seq<usize>>,
) {
    if kind_at(pool, r) is MotionEnd {
        motion_resolved(
            Graphics { in_motion: false, motion: seq![], ..g },
            pool,
            g.motion,
            depth,
        )
    } else {
        processed(g, pool, r, depth)
    }
}

/// The state after request `r` was read: an archive or motion block that is being
/// recorded takes it in, else it takes effect.
#[verifier::opaque]
pub open spec fn request_read(g: Graphics, pool: Seq<ast::RequestView>, r: usize, depth: nat) -> (
    Graphics,
    Option<Seq<usize>>,
) {
    match g.recording {
        Some((name, list)) => if kind_at(pool, r) is ArchiveEnd {
            (Graphics { archives: g.archives.push((name, list)), recording: None, ..g }, None)
        } else {
            (Graphics { recording: Some((name, list.push(r))), ..g }, None)
        },
        None => if g.in_motion && !(kind_at(pool, r) is MotionEnd) {
            (Graphics { motion: g.motion.push(r), ..g }, None)
        } else {
            request_done(g, pool, r, depth)
        },
    }
}

/// The handle that a request gives.
fn handle_from(q: &RibRequest) -> (r: String)
    ensures
        r@ == handle_of(q@),
{
    if let Some(s) = q.string(0) {
        return s.to_owned();
    }
    match q.number(0) {
        Some(n) => binary::display_double(n),
        None => "0".to_owned(),
    }
}

/// The first argument of a procedural.
pub fn procedural_argument_from(q: &RibRequest) -> (r: Option<String>)
    ensures
        match r {
            Some(s) => procedural_argument(q@) == Some(s@),
            None => procedural_argument(q@) is None,
        },
{
    if q.values.len() <= 1 {
        return None;
    }
    assert(q@.values[1] == q.values@[1]@);
    match &q.values[1] {
        RibValue::String(s) => Some(s.clone()),
        RibValue::Strings(v) => if v.len() > 0 {
            Some(v[0].clone())
        } else {
            None
        },
        _ => None,
    }
}

/// The entries of the definition that was entered last under that handle.
fn find_definition(definitions: &Vec<ObjectDef>, name: &str) -> (r: Option<Vec<ObjectDefEntry>>)
    ensures
        match r {
            Some(v) => last_entry(views(definitions@), name@) == Some(v@),
            None => last_entry(views(definitions@), name@) is None,
        },
{
    let ghost all = views(definitions@);
    let mut i: usize = definitions.len();
    assert(all.subrange(0, i as int) =~= all);
    while i > 0
        invariant
            i <= definitions@.len(),
            all == views(definitions@),
            last_entry(all, name@) == last_entry(all.subrange(0, i as int), name@),
        decreases i,
    {
        proof {
            let part = all.subrange(0, i as int);
            assert(part.last() == definitions@[i - 1]@);
            assert(part.drop_last() =~= all.subrange(0, i - 1));
        }
        if text::same_text(definitions[i - 1].handle.as_str(), name) {
            let entries: &Vec<ObjectDefEntry> = &definitions[i - 1].entries;
            let mut out: Vec<ObjectDefEntry> = Vec::new();
            let mut k: usize = 0;
            while k < entries.len()
                invariant
                    k <= entries@.len(),
                    out@ == entries@.subrange(0, k as int),
                decreases entries@.len() - k,
            {
                out.push(entries[k]);
                k += 1;
            }
            assert(entries@.subrange(0, k as int) =~= entries@);
            return Some(out);
        }
        i -= 1;
    }
    None
}

/// The requests of the inline archive that was recorded last under that name.
fn find_archive(archives: &Vec<Archive>, name: &str) -> (r: Option<Vec<usize>>)
    ensures
        match r {
            Some(v) => last_entry(views(archives@), name@) == Some(v@),
            None => last_entry(views(archives@), name@) is None,
        },
{
    let ghost all = views(archives@);
    let mut i: usize = archives.len();
    assert(all.subrange(0, i as int) =~= all);
    while i > 0
        invariant
            i <= archives@.len(),
            all == views(archives@),
            last_entry(all, name@) == last_entry(all.subrange(0, i as int), name@),
        decreases i,
    {
        proof {
            let part = all.subrange(0, i as int);
            assert(part.last() == archives@[i - 1]@);
            assert(part.drop_last() =~= all.subrange(0, i - 1));
        }
        if text::same_text(archives[i - 1].name.as_str(), name) {
            let list: &Vec<usize> = &archives[i - 1].requests;
            let mut out: Vec<usize> = Vec::new();
            let mut k: usize = 0;
            while k < list.len()
                invariant
                    k <= list@.len(),
                    out@ == list@.subrange(0, k as int),
                decreases list@.len() - k,
            {
                out.push(list[k]);
                k += 1;
            }
            assert(list@.subrange(0, k as int) =~= list@);
            return Some(out);
        }
        i -= 1;
    }
    None
}

fn quadric_kind(kind: RequestKind) -> (r: bool)
    ensures
        r == is_quadric(kind),
{
    matches!(
        kind,
        RequestKind::Sphere
        | RequestKind::Cylinder
        | RequestKind::Cone
        | RequestKind::Torus
        | RequestKind::Disk
        | RequestKind::Paraboloid
        | RequestKind::Hyperboloid
    )
}

fn transform_kind(kind: RequestKind) -> (r: bool)
    ensures
        r == is_transform(kind),
{
    matches!(
        kind,
        RequestKind::Identity
        | RequestKind::Transform
        | RequestKind::ConcatTransform
        | RequestKind::Translate
        | RequestKind::Rotate
        | RequestKind::Scale
    )
}

fn option_kind(kind: RequestKind) -> (r: bool)
    ensures
        r == is_option(kind),
{
    matches!(
        kind,
        RequestKind::Format
        | RequestKind::Projection
        | RequestKind::DepthOfField
        | RequestKind::Shutter
        | RequestKind::PixelFilter
        | RequestKind::ScreenWindow
        | RequestKind::PixelSamples
        | RequestKind::Recorded
        | RequestKind::Options
        | RequestKind::Attribute
    )
}

fn attribute_kind(kind: RequestKind) -> (r: bool)
    ensures
        r == is_attribute(kind),
{
    matches!(
        kind,
        RequestKind::Basis
        | RequestKind::Color
        | RequestKind::Opacity
        | RequestKind::Surface
        | RequestKind::Orientation
        | RequestKind::ReverseOrientation
        | RequestKind::Sides
        | RequestKind::ShadingRate
        | RequestKind::AreaLightSource
        | RequestKind::Displace
    )
}

/// What is to be played.
pub open spec fn opt_list(v: Option<Vec<usize>>) -> Option<Seq<usize>> {
    match v {
        Some(v) => Some(v@),
        None => None,
    }
}

impl Interpreter {
    fn object_request(&mut self, q: &RibRequest, kind: RequestKind)
        ensures
            final(self)@ == object_applied(old(self)@, q@, kind),
    {
        reveal(object_applied);
        match kind {
            RequestKind::ObjectBegin => {
                let handle: String = handle_from(q);
                self.push_attributes();
                self.transform = Transform { node: None };
                let d: ObjectDef = ObjectDef { handle, entries: Vec::new() };
                assert(d@.1 =~= seq![]);
                self.defining = Some(d);
            },
            RequestKind::ObjectEnd => {
                match self.defining.take() {
                    Some(d) => {
                        proof {
                            views_push(self.definitions@, d);
                        }
                        self.definitions.push(d);
                    },
                    None => {},
                }
                self.pop_attributes();
            },
            RequestKind::ObjectInstance => {
                let handle: String = handle_from(q);
                match find_definition(&self.definitions, handle.as_str()) {
                    Some(entries) => {
                        let ghost before = self@;
                        let ghost all = definition_instances(
                            entries@,
                            self.transform,
                            self.state.motion,
                        );
                        let mut i: usize = 0;
                        assert(before.instances + all.subrange(0, 0) =~= before.instances);
                        while i < entries.len()
                            invariant
                                i <= entries@.len(),
                                all == definition_instances(
                                    entries@,
                                    before.transform,
                                    before.state.motion,
                                ),
                                self@ == (Graphics {
                                    instances: before.instances + all.subrange(0, i as int),
                                    ..before
                                }),
                            decreases entries@.len() - i,
                        {
                            let e: ObjectDefEntry = entries[i];
                            let placement: Transform = self.transform;
                            let motion: Option<Motion> = self.state.motion;
                            self.instances.push(
                                Instance {
                                    geometry: GeomKind::Mesh(e.mesh),
                                    material_id: e.material_id,
                                    placement,
                                    local: Some(e.local),
                                    motion,
                                },
                            );
                            assert(self.instances@ =~= before.instances + all.subrange(0, i + 1));
                            i += 1;
                        }
                        assert(all.subrange(0, i as int) =~= all);
                    },
                    None => {
                        self.warn_once(WarningKind::UndefinedObject, handle.as_str());
                    },
                }
            },
            _ => {},
        }
    }

    /// Asks for an archive; what is to be played.
    fn read_archive(&mut self, name: &str, r: usize, depth: usize) -> (play: Option<Vec<usize>>)
        ensures
            (final(self)@, opt_list(play)) == archive_asked(old(self)@, name@, r, depth as nat),
    {
        reveal(archive_asked);
        if depth >= MAX_ARCHIVE_DEPTH {
            self.warn_once(WarningKind::ArchiveDepth, name);
            return None;
        }
        match find_archive(&self.archives, name) {
            Some(list) => Some(list),
            None => {
                self.waiting = Waiting::Archive { request: r };
                None
            },
        }
    }

    fn procedural_request(&mut self, q: &RibRequest, r: usize, depth: usize) -> (play: Option<
        Vec<usize>,
    >)
        ensures
            (final(self)@, opt_list(play)) == procedural_applied(
                old(self)@,
                q@,
                r,
                depth as nat,
            ),
    {
        reveal(procedural_applied);
        let kind: &str = match q.string(0) {
            Some(s) => s,
            None => "",
        };
        if text::same_text(kind, "DelayedReadArchive") {
            self.warn_once(WarningKind::EagerArchive, "");
            match procedural_argument_from(q) {
                Some(name) => self.read_archive(name.as_str(), r, depth),
                None => None,
            }
        } else if text::same_text(kind, "RunProgram") {
            if procedural_argument_from(q).is_some() {
                self.waiting = Waiting::Program { request: r };
            } else {
                self.warn_once(WarningKind::NoProgram, "");
            }
            None
        } else {
            self.warn_once(WarningKind::UnknownProcedural, kind);
            None
        }
    }

    fn process_here(&mut self, pool: &Vec<RibRequest>, r: usize, kind: RequestKind)
        requires
            r < pool@.len(),
            is_sound(old(self)@, pool@.len()),
            has_room(old(self)@),
        ensures
            final(self)@ == processed_here(
                old(self)@,
                ast::request_views(pool@),
                pool@[r as int]@,
                r,
                kind,
            ),
    {
        reveal(processed_here);
        let q: &RibRequest = &pool[r];
        if option_kind(kind) {
            self.option_request(q, r, kind);
            return;
        }
        if transform_kind(kind) {
            self.transform_request(q, r, kind);
            return;
        }
        if attribute_kind(kind) {
            self.attribute_request(q, r, kind);
            return;
        }
        if quadric_kind(kind) {
            if let Some(k) = quadric_from(q, kind) {
                self.add_primitive(pool, q.name.as_str(), k);
            }
            return;
        }
        match kind {
            RequestKind::AttributeBegin => self.push_attributes(),
            RequestKind::AttributeEnd => self.pop_attributes(),
            RequestKind::TransformBegin => self.push_transform(),
            RequestKind::TransformEnd => self.pop_transform(),
            RequestKind::MotionBegin => {
                self.in_motion = true;
                self.motion = Vec::new();
                assert(self.motion@ =~= seq![]);
            },
            RequestKind::ArchiveBegin => {
                if let Some(name) = q.string(0) {
                    let a: Archive = Archive { name: name.to_owned(), requests: Vec::new() };
                    assert(a@.1 =~= seq![]);
                    self.recording = Some(a);
                }
            },
            RequestKind::Interior => self.medium_request(q, kind),
            RequestKind::Atmosphere => self.medium_request(q, kind),
            RequestKind::Exterior => self.warn_once(WarningKind::Exterior, ""),
            RequestKind::ObjectBegin => self.object_request(q, kind),
            RequestKind::ObjectEnd => self.object_request(q, kind),
            RequestKind::ObjectInstance => self.object_request(q, kind),
            RequestKind::CoordinateSystem => {
                if q.string(0).is_some() {
                    self.coordinate_systems.push((r, self.transform));
                }
            },
            RequestKind::LightSource => {
                if let Some(l) = parse_light(q) {
                    self.lights.push(l);
                }
            },
            RequestKind::Light => self.build_light(q, r),
            RequestKind::Bxdf => self.bxdf_request(q, r),
            RequestKind::Pattern => self.pattern_request(q, r),
            RequestKind::Curves => self.curves_request(pool, q),
            RequestKind::Points => self.points_request(pool, q),
            RequestKind::PointsPolygons => self.points_polygons(pool, q, 0, None),
            RequestKind::PointsGeneralPolygons => self.points_general_polygons(pool, q, None),
            RequestKind::SubdivisionMesh => self.subdivision_mesh(pool, q, kind),
            RequestKind::HierarchicalSubdivisionMesh => self.subdivision_mesh(pool, q, kind),
            RequestKind::PatchMesh => self.patch_mesh(pool, q),
            RequestKind::NuPatch => self.nu_patch(pool, q),
            RequestKind::GeneralPolygon => self.general_polygon(q, r),
            RequestKind::Polygon => self.polygon_request(pool, q),
            RequestKind::Unknown => self.warn_once(WarningKind::UnknownRequest, q.name.as_str()),
            _ => {},
        }
    }

    /// Lets request `r` take effect; what is to be played next.
    pub fn process(&mut self, pool: &Vec<RibRequest>, r: usize, depth: usize) -> (play: Option<
        Vec<usize>,
    >)
        requires
            r < pool@.len(),
            is_sound(old(self)@, pool@.len()),
            has_room(old(self)@),
        ensures
            (final(self)@, opt_list(play)) == processed(
                old(self)@,
                ast::request_views(pool@),
                r,
                depth as nat,
            ),
    {
        reveal(processed);
        let q: &RibRequest = &pool[r];
        assert(ast::request_views(pool@)[r as int] == q@);
        let kind: RequestKind = kinds::request_kind(q.name.as_str());
        match kind {
            RequestKind::ReadArchive => match q.string(0) {
                Some(name) => self.read_archive(name, r, depth),
                None => None,
            },
            RequestKind::Procedural => self.procedural_request(q, r, depth),
            _ => {
                self.process_here(pool, r, kind);
                None
            },
        }
    }

    /// Resolves a closed motion block; what is to be played next.
    fn finish_motion_block(&mut self, pool: &Vec<RibRequest>, block: &Vec<usize>, depth: usize) -> (play:
        Option<Vec<usize>>)
        requires
            all_below(block@, pool@.len()),
            is_sound(old(self)@, pool@.len()),
            has_room(old(self)@),
        ensures
            (final(self)@, opt_list(play)) == motion_resolved(
                old(self)@,
                ast::request_views(pool@),
                block@,
                depth as nat,
            ),
    {
        reveal(motion_resolved);
        if block.len() == 0 {
            return None;
        }
        let ghost requests = ast::request_views(pool@);
        let first: usize = block[0];
        let last: usize = block[block.len() - 1];
        assert(requests[first as int] == pool@[first as int]@);
        assert(requests[last as int] == pool@[last as int]@);
        let first_kind: RequestKind = kinds::request_kind(pool[first].name.as_str());
        let mut moving: bool = true;
        let mut alike: bool = true;
        let mut i: usize = 0;
        while i < block.len()
            invariant
                i <= block@.len(),
                block@.len() > 0,
                all_below(block@, pool@.len()),
                requests == ast::request_views(pool@),
                first_kind == kind_at(requests, block@[0]),
                moving == forall|k: int|
                    0 <= k < i ==> is_transform(kind_at(requests, #[trigger] block@[k])),
                alike == forall|k: int|
                    0 <= k < i ==> kind_at(requests, #[trigger] block@[k]) == kind_at(
                        requests,
                        block@[0],
                    ),
            decreases block@.len() - i,
        {
            let r: usize = block[i];
            assert(requests[r as int] == pool@[r as int]@);
            let kind: RequestKind = kinds::request_kind(pool[r].name.as_str());
            if !transform_kind(kind) {
                moving = false;
            }
            if kind != first_kind {
                alike = false;
            }
            i += 1;
        }
        if moving {
            let base: Transform = self.transform;
            self.transform_request(&pool[first], first, first_kind);
            if block.len() > 1 {
                let open: Transform = self.transform;
                self.transform = base;
                let last_kind: RequestKind = kinds::request_kind(pool[last].name.as_str());
                self.transform_request(&pool[last], last, last_kind);
                let close: Transform = self.transform;
                self.transform = open;
                self.state.motion = Some(Motion { open, close });
            }
            return None;
        }
        let polygons: bool = matches!(first_kind, RequestKind::PointsPolygons);
        let general: bool = matches!(first_kind, RequestKind::PointsGeneralPolygons);
        if alike && (polygons || general) {
            let params = pool[last].params_from(if polygons { 2 } else { 3 });
            let deformed: Option<&[u64]> = if block.len() > 1 {
                params.get_numbers("P")
            } else {
                None
            };
            if polygons {
                self.points_polygons(pool, &pool[first], 0, deformed);
            } else {
                self.points_general_polygons(pool, &pool[first], deformed);
            }
            return None;
        }
        self.warn_once(WarningKind::Motion, pool[first].name.as_str());
        self.process(pool, first, depth)
    }

    /// Reads request `r`; what is to be played next.
    pub fn read(&mut self, pool: &Vec<RibRequest>, r: usize, depth: usize) -> (play: Option<Vec<usize>>)
        requires
            r < pool@.len(),
            is_sound(old(self)@, pool@.len()),
            has_room(old(self)@),
        ensures
            (final(self)@, opt_list(play)) == request_read(
                old(self)@,
                ast::request_views(pool@),
                r,
                depth as nat,
            ),
    {
        reveal(request_read);
        reveal(request_done);
        assert(ast::request_views(pool@)[r as int] == pool@[r as int]@);
        let kind: RequestKind = kinds::request_kind(pool[r].name.as_str());
        match self.recording.take() {
            Some(mut a) => {
                if matches!(kind, RequestKind::ArchiveEnd) {
                    proof {
                        views_push(self.archives@, a);
                    }
                    self.archives.push(a);
                } else {
                    a.requests.push(r);
                    self.recording = Some(a);
                }
                return None;
            },
            None => {},
        }
        if matches!(kind, RequestKind::MotionEnd) {
            self.in_motion = false;
            let mut block: Vec<usize> = Vec::new();
            std::mem::swap(&mut block, &mut self.motion);
            assert(self.motion@ =~= seq![]);
            return self.finish_motion_block(pool, &block, depth);
        }
        if self.in_motion {
            self.motion.push(r);
            return None;
        }
        self.process(pool, r, depth)
    }
}

} // verus!
