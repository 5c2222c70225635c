//! Interprets a stream of requests into a scene description, one request at a
//! time. Work that only the surroundings can do (reading an archive, running a
//! program, cutting a polygon into triangles) is asked for and its outcome handed
//! back.

use crate::arith::{computes, Op};
use crate::geometry::earclip;
use crate::geometry::earclip::can_triangulate;
use crate::geometry::patches::{Basis, BasisUse};
use crate::math;
use crate::math::Vec3;
use crate::parser;
use crate::parser::ast;
use crate::parser::ast::RibRequest;
use crate::parser::interpreter;
use crate::parser::interpreter::{Graphics, Interpreter, Waiting, WarningKind};
use crate::parser::kinds;
use crate::parser::requests;
use crate::parser::scene;
use crate::parser::scene::{
    GraphicsState, MeshSource, Options, PixelFilter, Projection, Surface, Transform,
};
use vstd::prelude::*;

verus! {

/// Requests being played: their indices, and how many of them were read.
#[derive(Debug)]
pub struct Frame {
    pub list: Vec<usize>,
    pub next: usize,
}

impl View for Frame {
    type V = (Seq<usize>, usize);

    open spec fn view(&self) -> (Seq<usize>, usize) {
        (self.list@, self.next)
    }
}

/// Builds a scene description from requests.
#[derive(Debug)]
pub struct SceneBuilder {
    pool: Vec<RibRequest>,
    frames: Vec<Frame>,
    interpreter: Interpreter,
}

/// What a builder holds: every request that it was given, the requests being
/// played (an archive on top of the stream that asked for it), and the state.
pub struct BuilderView {
    pub pool: Seq<ast::RequestView>,
    pub frames: Seq<(Seq<usize>, usize)>,
    pub graphics: Graphics,
}

impl View for SceneBuilder {
    type V = BuilderView;

    closed spec fn view(&self) -> BuilderView {
        BuilderView {
            pool: ast::request_views(self.pool@),
            frames: interpreter::views(self.frames@),
            graphics: self.interpreter@,
        }
    }
}

/// Where a builder stands after a step.
#[derive(Clone, Copy, Debug, PartialEq, Eq, Structural)]
pub enum Step {
    /// There is more to do.
    Going,
    /// Something is asked for.
    Asking,
    /// Every request was read.
    Finished,
    /// The scene has as many objects, media or patterns as can be numbered.
    Full,
}

/// What a builder needs to stay sound.
pub open spec fn builder_sound(b: BuilderView) -> bool {
    &&& interpreter::is_sound(b.graphics, b.pool.len())
    &&& forall|i: int|
        0 <= i < b.frames.len() ==> frame_sound(#[trigger] b.frames[i], b.pool.len())
}

/// The requests being played stand in the pool.
pub open spec fn frame_sound(f: (Seq<usize>, usize), pool: nat) -> bool {
    interpreter::all_below(f.0, pool) && f.1 <= f.0.len()
}

/// The attribute state before any request.
pub open spec fn initial_state() -> GraphicsState {
    let white = Vec3::of(math::ONE, math::ONE, math::ONE);
    let bezier = BasisUse { basis: Basis::Bezier, step: 3 };
    GraphicsState {
        color: white,
        opacity: white,
        surface: Surface::Matte,
        roughness: interpreter::DEFAULT_ROUGHNESS,
        reverse_orientation: false,
        sides: 2,
        shading_rate: math::ONE,
        area_light: None,
        bxdf: None,
        displace: None,
        motion: None,
        hair: None,
        interior: None,
        identifier: None,
        basis_u: bezier,
        basis_v: bezier,
    }
}

/// Bits of 45: the field of view where none is given.
pub const DEFAULT_FOV: u64 = 0x4046_8000_0000_0000;

/// The options before any request.
pub open spec fn initial_options() -> Options {
    Options {
        width: 640,
        height: 480,
        fov: DEFAULT_FOV,
        projection: Projection::Perspective,
        depth_of_field: None,
        pixel_filter: PixelFilter { request: None, x_width: math::ONE, y_width: math::ONE },
        shutter_open: 0,
        shutter_close: 0,
        screen_window: None,
        samples_x: 1,
        samples_y: 1,
        background: Vec3::of(0, 0, 0),
    }
}

/// The state before any request.
pub open spec fn initial_graphics(bindable: Seq<Seq<char>>) -> Graphics {
    Graphics {
        options: initial_options(),
        state: initial_state(),
        attribute_stack: seq![],
        transform: Transform { node: None },
        transform_stack: seq![],
        nodes: seq![],
        coordinate_systems: seq![],
        recorded: seq![],
        warnings: seq![],
        in_motion: false,
        motion: seq![],
        archives: seq![],
        recording: None,
        definitions: seq![],
        defining: None,
        patterns: seq![],
        handles: seq![],
        object_names: seq![],
        bxdfs: seq![],
        bindable,
        waiting: Waiting::Nothing,
        media: seq![],
        atmosphere: None,
        objects: seq![],
        meshes: seq![],
        curve_sets: seq![],
        instances: seq![],
        lights: seq![],
        materials: seq![],
    }
}

/// The indices `from..to`.
pub open spec fn index_range(from: nat, to: nat) -> Seq<usize> {
    Seq::new((to - from) as nat, |i: int| (from + i) as usize)
}

/// More requests are played on top of what is being played.
pub open spec fn played(b: BuilderView, file: Seq<ast::RequestView>) -> BuilderView {
    BuilderView {
        pool: b.pool + file,
        frames: b.frames.push((index_range(b.pool.len(), b.pool.len() + file.len()), 0)),
        ..b
    }
}

/// A builder after one more step, and where it then stands.
pub open spec fn stepped(b: BuilderView) -> (BuilderView, Step) {
    if !(b.graphics.waiting is Nothing) {
        (b, Step::Asking)
    } else if b.frames.len() == 0 {
        (b, Step::Finished)
    } else if !interpreter::has_room(b.graphics) {
        (b, Step::Full)
    } else {
        let (list, next) = b.frames.last();
        let below = b.frames.drop_last();
        if next >= list.len() {
            (BuilderView { frames: below, ..b }, Step::Going)
        } else {
            let frames = below.push((list, (next + 1) as usize));
            let (graphics, play) = interpreter::request_read(
                b.graphics,
                b.pool,
                list[next as int],
                (b.frames.len() - 1) as nat,
            );
            (
                BuilderView {
                    pool: b.pool,
                    frames: match play {
                        Some(list) => frames.push((list, 0)),
                        None => frames,
                    },
                    graphics,
                },
                Step::Going,
            )
        }
    }
}

/// A builder after up to `n` steps, and where it then stands.
pub open spec fn ran(b: BuilderView, n: nat) -> (BuilderView, Step)
    decreases n,
{
    if n == 0 {
        (b, Step::Going)
    } else {
        let (c, step) = stepped(b);
        if step is Going {
            ran(c, (n - 1) as nat)
        } else {
            (c, step)
        }
    }
}

/// The name of what is waited for: an archive or a program.
pub open spec fn asked_name(b: BuilderView) -> Seq<char> {
    match b.graphics.waiting {
        Waiting::Archive { request } => requests::or_default(
            interpreter::archive_name(b.pool[request as int]),
            seq![],
        ),
        Waiting::Program { request } => requests::or_default(
            interpreter::procedural_argument(b.pool[request as int]),
            seq![],
        ),
        _ => seq![],
    }
}

/// A builder after the bytes that it asked for came (or did not): requests in them
/// are played, anything else is warned of.
pub open spec fn answered(b: BuilderView, content: Option<Seq<u8>>) -> BuilderView {
    let name = asked_name(b);
    let archive = b.graphics.waiting is Archive;
    let c = BuilderView { graphics: Graphics { waiting: Waiting::Nothing, ..b.graphics }, ..b };
    match content {
        None => BuilderView {
            graphics: interpreter::warned(
                c.graphics,
                if archive { WarningKind::ArchiveUnreadable } else { WarningKind::ProgramFailed },
                name,
            ),
            ..c
        },
        Some(bytes) => match parser::parsed_bytes(bytes) {
            Ok(file) => played(c, file),
            Err(_) => BuilderView {
                graphics: interpreter::warned(
                    c.graphics,
                    if archive {
                        WarningKind::ArchiveMalformed
                    } else {
                        WarningKind::ProgramMalformed
                    },
                    name,
                ),
                ..c
            },
        },
    }
}

/// A builder after it was told whether the polygon that it asked about can be cut
/// into triangles.
pub open spec fn polygon_answered(b: BuilderView, possible: bool) -> BuilderView {
    let g = Graphics { waiting: Waiting::Nothing, ..b.graphics };
    BuilderView {
        graphics: match b.graphics.waiting {
            Waiting::Polygon { request } => match requests::polygon_loops(b.pool[request as int]) {
                Some(loops) => if possible {
                    interpreter::mesh_added(g, b.pool, scene::MeshSourceView::Loops(loops))
                } else {
                    interpreter::warned(g, WarningKind::Triangulation, ""@)
                },
                None => g,
            },
            _ => b.graphics,
        },
        ..b
    }
}

/// Whether the polygon that is asked about can be cut into triangles.
pub open spec fn polygon_is_possible<F: Fn(Op, u64, u64) -> u64>(f: F, b: BuilderView) -> bool {
    match b.graphics.waiting {
        Waiting::Polygon { request } => match requests::polygon_loops(b.pool[request as int]) {
            Some(loops) => earclip::is_triangulable(f, loops),
            None => false,
        },
        _ => false,
    }
}

/// Reading a request keeps the state sound, and what it plays stands in the pool.
pub proof fn reading_keeps_sound(g: Graphics, pool: Seq<ast::RequestView>, r: usize, depth: nat)
    requires
        interpreter::is_sound(g, pool.len()),
        r < pool.len(),
    ensures
        interpreter::is_sound(interpreter::request_read(g, pool, r, depth).0, pool.len()),
        interpreter::request_read(g, pool, r, depth).1 matches Some(list) ==> interpreter::all_below(
            list,
            pool.len(),
        ),
{
    reveal(interpreter::request_read);
    reveal(interpreter::request_done);
    if g.recording is None && !(g.in_motion && !(interpreter::kind_at(pool, r) is MotionEnd)) {
        if interpreter::kind_at(pool, r) is MotionEnd {
            let h = Graphics { in_motion: false, motion: seq![], ..g };
            motion_keeps_sound(h, pool, g.motion, depth);
        } else {
            processing_keeps_sound(g, pool, r, depth);
        }
    }
}

proof fn last_entry_below(archives: Seq<(Seq<char>, Seq<usize>)>, name: Seq<char>, pool: nat)
    requires
        forall|i: int|
            0 <= i < archives.len() ==> interpreter::all_below(#[trigger] archives[i].1, pool),
    ensures
        interpreter::last_entry(archives, name) matches Some(list) ==> interpreter::all_below(list, pool),
    decreases archives.len(),
{
    if archives.len() > 0 {
        assert(interpreter::all_below(archives[archives.len() - 1].1, pool));
        last_entry_below(archives.drop_last(), name, pool);
    }
}

proof fn motion_keeps_sound(g: Graphics, pool: Seq<ast::RequestView>, block: Seq<usize>, depth: nat)
    requires
        interpreter::is_sound(g, pool.len()),
        interpreter::all_below(block, pool.len()),
    ensures
        interpreter::is_sound(interpreter::motion_resolved(g, pool, block, depth).0, pool.len()),
        interpreter::motion_resolved(g, pool, block, depth).1 matches Some(list)
            ==> interpreter::all_below(list, pool.len()),
{
    reveal(interpreter::motion_resolved);
    if block.len() > 0 {
        let q = pool[block[0] as int];
        let first = block[0];
        let last = block.last();
        if interpreter::moves_transform(pool, block) {
            let g1 = interpreter::transform_applied(g, q, first, interpreter::kind_at(pool, first));
            simple_core(g, q, first, interpreter::kind_at(pool, first));
            simple_core(
                interpreter::placed_at(g1, g.transform),
                pool[last as int],
                last,
                interpreter::kind_at(pool, last),
            );
        } else if interpreter::deforms_polygons(pool, block) {
            let deformed = if block.len() > 1 {
                ast::numbers_param(
                    pool[last as int].params(
                        interpreter::polygon_params(interpreter::kind_at(pool, first)),
                    ),
                    "P"@,
                )
            } else {
                None
            };
            polygons_core(g, pool, q, 0, deformed);
            geometry_core(g, pool, q, deformed);
        } else {
            processing_keeps_sound(
                interpreter::warned(g, WarningKind::Motion, q.name),
                pool,
                first,
                depth,
            );
        }
    }
}

/// What soundness speaks of is the same.
spec fn same_core(g: Graphics, h: Graphics) -> bool {
    &&& h.state.identifier == g.state.identifier
    &&& h.attribute_stack == g.attribute_stack
    &&& h.motion == g.motion
    &&& h.archives == g.archives
    &&& h.recording == g.recording
    &&& h.waiting == g.waiting
}

proof fn warned_each_core(g: Graphics, kind: WarningKind, names: Seq<Seq<char>>)
    ensures
        same_core(g, interpreter::warned_each(g, kind, names)),
    decreases names.len(),
{
    if names.len() > 0 {
        warned_each_core(g, kind, names.drop_last());
    }
}

proof fn bound_core(g: Graphics, pairs: Seq<(Seq<char>, ast::ValueView)>, n: int)
    ensures
        same_core(g, interpreter::bound_until(g, pairs, n).0),
    decreases n,
{
    if n > 0 {
        bound_core(g, pairs, n - 1);
    }
}

proof fn simple_core(g: Graphics, q: ast::RequestView, r: usize, kind: kinds::RequestKind)
    ensures
        same_core(g, interpreter::transform_applied(g, q, r, kind)),
        same_core(g, interpreter::attribute_applied(g, q, r, kind)),
        same_core(g, interpreter::medium_applied(g, q, kind)),
        same_core(g, interpreter::light_applied(g, q, r)),
        same_core(g, interpreter::pattern_applied(g, q, r)),
{
    reveal(interpreter::transform_applied);
    reveal(interpreter::attribute_applied);
    reveal(interpreter::medium_applied);
    reveal(interpreter::light_applied);
    reveal(interpreter::pattern_applied);
}

proof fn bxdf_core(g: Graphics, q: ast::RequestView, r: usize)
    ensures
        same_core(g, interpreter::bxdf_applied(g, q, r)),
{
    reveal(interpreter::bxdf_applied);
    let name = requests::or_default(q.text(0), ""@);
    let params = q.params(requests::params_start(q));
    let g1 = Graphics {
        state: GraphicsState { hair: None, bxdf: Some(g.bxdfs.len() as usize), ..g.state },
        ..g
    };
    bound_core(g1, params, params.len() as int);
    bound_core(
        interpreter::warned(g1, WarningKind::UnknownBxdf, name),
        params,
        params.len() as int,
    );
}

proof fn polygons_core(
    g: Graphics,
    pool: Seq<ast::RequestView>,
    q: ast::RequestView,
    first: int,
    deformed: Option<Seq<u64>>,
)
    ensures
        same_core(g, interpreter::polygons_applied(g, pool, q, first, deformed)),
{
    reveal(interpreter::polygons_applied);
    reveal(interpreter::mesh_added);
}

proof fn geometry_core(
    g: Graphics,
    pool: Seq<ast::RequestView>,
    q: ast::RequestView,
    deformed: Option<Seq<u64>>,
)
    ensures
        same_core(g, interpreter::polygon_applied(g, pool, q)),
        same_core(g, interpreter::general_polygons_applied(g, pool, q, deformed)),
        same_core(g, interpreter::patch_applied(g, pool, q)),
        same_core(g, interpreter::nu_patch_applied(g, pool, q)),
        same_core(g, interpreter::strands_applied(g, pool, q)),
        same_core(g, interpreter::particles_applied(g, pool, q)),
{
    polygons_core(g, pool, q, 1, deformed);
    polygons_core(interpreter::warned(g, WarningKind::Holes, ""@), pool, q, 1, deformed);
    reveal(interpreter::polygon_applied);
    reveal(interpreter::general_polygons_applied);
    reveal(interpreter::patch_applied);
    reveal(interpreter::nu_patch_applied);
    reveal(interpreter::strands_applied);
    reveal(interpreter::particles_applied);
    reveal(interpreter::mesh_added);
    reveal(interpreter::curves_added);
}

proof fn subdivision_core(
    g: Graphics,
    pool: Seq<ast::RequestView>,
    q: ast::RequestView,
    kind: kinds::RequestKind,
)
    ensures
        same_core(g, interpreter::subdivision_applied(g, pool, q, kind)),
{
    reveal(interpreter::subdivision_applied);
    reveal(interpreter::mesh_added);
    let g0 = if kind is HierarchicalSubdivisionMesh {
        interpreter::warned(g, WarningKind::Hierarchical, ""@)
    } else {
        g
    };
    if let Some(scheme) = q.text(0) {
        let g1 = if scheme == "catmull-clark"@ {
            g0
        } else {
            interpreter::warned(g0, WarningKind::SubdivisionScheme, scheme)
        };
        warned_each_core(
            g1,
            WarningKind::SubdivisionTag,
            requests::subdivision_tags(q).0.unsupported,
        );
    }
}

proof fn processing_here_keeps_sound(
    g: Graphics,
    pool: Seq<ast::RequestView>,
    r: usize,
    kind: kinds::RequestKind,
)
    requires
        interpreter::is_sound(g, pool.len()),
        r < pool.len(),
    ensures
        interpreter::is_sound(
            interpreter::processed_here(g, pool, pool[r as int], r, kind),
            pool.len(),
        ),
{
    let q = pool[r as int];
    reveal(interpreter::processed_here);
    if interpreter::is_option(kind) {
        reveal(interpreter::option_applied);
    } else if interpreter::is_transform(kind) || interpreter::is_attribute(kind) {
        simple_core(g, q, r, kind);
    } else if interpreter::is_quadric(kind) {
        reveal(interpreter::primitive_added);
    } else if kind is ObjectBegin || kind is ObjectEnd || kind is ObjectInstance {
        reveal(interpreter::object_applied);
    } else if kind is GeneralPolygon {
        reveal(interpreter::loops_applied);
    } else {
        simple_core(g, q, r, kind);
        bxdf_core(g, q, r);
        geometry_core(g, pool, q, None);
        polygons_core(g, pool, q, 0, None);
        subdivision_core(g, pool, q, kind);
    }
}

proof fn archive_keeps_sound(g: Graphics, name: Seq<char>, r: usize, depth: nat, pool: nat)
    requires
        interpreter::is_sound(g, pool),
        r < pool,
    ensures
        interpreter::is_sound(interpreter::archive_asked(g, name, r, depth).0, pool),
        interpreter::archive_asked(g, name, r, depth).1 matches Some(list) ==> interpreter::all_below(
            list,
            pool,
        ),
{
    reveal(interpreter::archive_asked);
    last_entry_below(g.archives, name, pool);
}

proof fn processing_keeps_sound(g: Graphics, pool: Seq<ast::RequestView>, r: usize, depth: nat)
    requires
        interpreter::is_sound(g, pool.len()),
        r < pool.len(),
    ensures
        interpreter::is_sound(interpreter::processed(g, pool, r, depth).0, pool.len()),
        interpreter::processed(g, pool, r, depth).1 matches Some(list) ==> interpreter::all_below(
            list,
            pool.len(),
        ),
{
    let q = pool[r as int];
    let kind = interpreter::kind_at(pool, r);
    reveal(interpreter::processed);
    if kind is ReadArchive {
        if let Some(name) = q.text(0) {
            archive_keeps_sound(g, name, r, depth, pool.len());
        }
    } else if kind is Procedural {
        reveal(interpreter::procedural_applied);
        if let Some(name) = interpreter::procedural_argument(q) {
            archive_keeps_sound(
                interpreter::warned(g, WarningKind::EagerArchive, ""@),
                name,
                r,
                depth,
                pool.len(),
            );
        }
    } else {
        processing_here_keeps_sound(g, pool, r, kind);
    }
}

/// One more step keeps a builder sound.
pub proof fn stepping_keeps_sound(b: BuilderView)
    requires
        builder_sound(b),
    ensures
        builder_sound(stepped(b).0),
{
    if b.frames.len() > 0 {
        let (list, next) = b.frames.last();
        assert(frame_sound(b.frames[b.frames.len() - 1], b.pool.len()));
        if next < list.len() {
            reading_keeps_sound(b.graphics, b.pool, list[next as int], (b.frames.len() - 1) as nat);
        }
    }
}

proof fn more_pool_keeps_sound(b: BuilderView, more: Seq<ast::RequestView>)
    requires
        builder_sound(b),
    ensures
        builder_sound(BuilderView { pool: b.pool + more, ..b }),
{
    let c = BuilderView { pool: b.pool + more, ..b };
    assert forall|i: int| 0 <= i < c.frames.len() implies frame_sound(
        #[trigger] c.frames[i],
        c.pool.len(),
    ) by {
        assert(frame_sound(b.frames[i], b.pool.len()));
    }
    assert forall|i: int| 0 <= i < c.graphics.archives.len() implies interpreter::all_below(
        #[trigger] c.graphics.archives[i].1,
        c.pool.len(),
    ) by {
        assert(interpreter::all_below(b.graphics.archives[i].1, b.pool.len()));
    }
    assert forall|i: int| 0 <= i < c.graphics.attribute_stack.len() implies interpreter::state_sound(
        #[trigger] c.graphics.attribute_stack[i],
        c.pool.len(),
    ) by {
        assert(interpreter::state_sound(b.graphics.attribute_stack[i], b.pool.len()));
    }
}

impl SceneBuilder {
    /// A builder with nothing to do. `bindable` names the material parameters that
    /// patterns can be bound to.
    pub fn new(bindable: Vec<String>) -> (r: SceneBuilder)
        ensures
            builder_sound(r@),
            r@ == (BuilderView {
                pool: seq![],
                frames: seq![],
                graphics: initial_graphics(ast::string_views(bindable@)),
            }),
    {
        let bezier: BasisUse = BasisUse { basis: Basis::Bezier, step: 3 };
        let state: GraphicsState = GraphicsState {
            color: Vec3::one(),
            opacity: Vec3::one(),
            surface: Surface::Matte,
            roughness: interpreter::DEFAULT_ROUGHNESS,
            reverse_orientation: false,
            sides: 2,
            shading_rate: math::ONE,
            area_light: None,
            bxdf: None,
            displace: None,
            motion: None,
            hair: None,
            interior: None,
            identifier: None,
            basis_u: bezier,
            basis_v: bezier,
        };
        let options: Options = Options {
            width: 640,
            height: 480,
            fov: DEFAULT_FOV,
            projection: Projection::Perspective,
            depth_of_field: None,
            pixel_filter: PixelFilter { request: None, x_width: math::ONE, y_width: math::ONE },
            shutter_open: 0,
            shutter_close: 0,
            screen_window: None,
            samples_x: 1,
            samples_y: 1,
            background: Vec3::zero(),
        };
        let interpreter: Interpreter = Interpreter {
            options,
            state,
            attribute_stack: Vec::new(),
            transform: Transform { node: None },
            transform_stack: Vec::new(),
            nodes: Vec::new(),
            coordinate_systems: Vec::new(),
            recorded: Vec::new(),
            warnings: Vec::new(),
            in_motion: false,
            motion: Vec::new(),
            archives: Vec::new(),
            recording: None,
            definitions: Vec::new(),
            defining: None,
            patterns: Vec::new(),
            handles: Vec::new(),
            object_names: Vec::new(),
            bxdfs: Vec::new(),
            bindable,
            waiting: Waiting::Nothing,
            media: Vec::new(),
            atmosphere: None,
            objects: Vec::new(),
            meshes: Vec::new(),
            curve_sets: Vec::new(),
            instances: Vec::new(),
            lights: Vec::new(),
            materials: Vec::new(),
        };
        let r: SceneBuilder = SceneBuilder { pool: Vec::new(), frames: Vec::new(), interpreter };
        proof {
            let g = r.interpreter@;
            let h = initial_graphics(ast::string_views(bindable@));
            assert(g.warnings =~= h.warnings);
            assert(g.archives =~= h.archives);
            assert(g.definitions =~= h.definitions);
            assert(g.handles =~= h.handles);
            assert(g.object_names =~= h.object_names);
            assert(g.bxdfs =~= h.bxdfs);
            assert(g.meshes =~= h.meshes);
            assert(g.curve_sets =~= h.curve_sets);
            assert(g.attribute_stack =~= h.attribute_stack);
            assert(g.transform_stack =~= h.transform_stack);
            assert(g.nodes =~= h.nodes);
            assert(g.coordinate_systems =~= h.coordinate_systems);
            assert(g.recorded =~= h.recorded);
            assert(g.motion =~= h.motion);
            assert(g.patterns =~= h.patterns);
            assert(g.media =~= h.media);
            assert(g.objects =~= h.objects);
            assert(g.instances =~= h.instances);
            assert(g.lights =~= h.lights);
            assert(g.materials =~= h.materials);
            assert(r@.pool =~= seq![]);
            assert(r@.frames =~= seq![]);
        }
        r
    }

    /// Gives the builder a stream of requests to read, before anything else that it
    /// still has to read.
    pub fn play(&mut self, file: Vec<RibRequest>)
        requires
            builder_sound(old(self)@),
        ensures
            final(self)@ == played(old(self)@, ast::request_views(file@)),
            builder_sound(final(self)@),
    {
        let ghost start = self@;
        let ghost views = ast::request_views(file@);
        let from: usize = self.pool.len();
        let mut file: Vec<RibRequest> = file;
        let ghost old_pool = self.pool@;
        self.pool.append(&mut file);
        assert(ast::request_views(self.pool@) =~= start.pool + views);
        let to: usize = self.pool.len();
        let mut list: Vec<usize> = Vec::new();
        let mut i: usize = from;
        while i < to
            invariant
                from <= i <= to,
                list@.len() == i - from,
                forall|k: int| 0 <= k < list@.len() ==> #[trigger] list@[k] == from + k,
            decreases to - i,
        {
            list.push(i);
            i += 1;
        }
        assert(list@ =~= index_range(from as nat, to as nat));
        let f: Frame = Frame { list, next: 0 };
        let ghost before = interpreter::views(self.frames@);
        self.frames.push(f);
        proof {
            assert(interpreter::views(self.frames@) =~= before.push(f@));
            more_pool_keeps_sound(start, views);
            let c = BuilderView { pool: start.pool + views, ..start };
            assert(self@.frames =~= c.frames.push(f@));
            assert forall|i: int| 0 <= i < self@.frames.len() implies frame_sound(
                #[trigger] self@.frames[i],
                self@.pool.len(),
            ) by {
                if i < c.frames.len() {
                    assert(frame_sound(c.frames[i], c.pool.len()));
                }
            }
        }
    }

    /// Whether the counters of the scene have room for one more request.
    pub fn room(&self) -> (r: bool)
        ensures
            r == interpreter::has_room(self@.graphics),
    {
        self.interpreter.object_names.len() < 0xffff_ffff && self.interpreter.media.len() < 0xffff_ffff
            && self.interpreter.patterns.len() < 0xffff_ffff
    }

    /// Reads one more request, or ends an archive.
    pub fn step(&mut self) -> (r: Step)
        requires
            builder_sound(old(self)@),
        ensures
            (final(self)@, r) == stepped(old(self)@),
            builder_sound(final(self)@),
    {
        let ghost start = self@;
        proof {
            stepping_keeps_sound(start);
        }
        if self.interpreter.waiting != Waiting::Nothing {
            return Step::Asking;
        }
        if self.frames.len() == 0 {
            return Step::Finished;
        }
        if !self.room() {
            return Step::Full;
        }
        let depth: usize = self.frames.len() - 1;
        let ghost frames = self.frames@;
        let mut top: Frame = match self.frames.pop() {
            Some(f) => f,
            None => {
                return Step::Finished;
            },
        };
        proof {
            assert(start.frames.last() == top@);
            assert(start.frames.drop_last() =~= interpreter::views(self.frames@));
            assert(frame_sound(start.frames[start.frames.len() - 1], start.pool.len()));
        }
        if top.next >= top.list.len() {
            return Step::Going;
        }
        let r: usize = top.list[top.next];
        let ghost below = interpreter::views(self.frames@);
        top.next = top.next + 1;
        self.frames.push(top);
        assert(interpreter::views(self.frames@) =~= below.push(top@));
        let play: Option<Vec<usize>> = self.interpreter.read(&self.pool, r, depth);
        match play {
            Some(list) => {
                let f: Frame = Frame { list, next: 0 };
                let ghost before = interpreter::views(self.frames@);
                self.frames.push(f);
                assert(interpreter::views(self.frames@) =~= before.push(f@));
            },
            None => {},
        }
        Step::Going
    }

    /// Takes up to `budget` steps; where it then stands.
    pub fn run(&mut self, budget: u64) -> (r: Step)
        requires
            builder_sound(old(self)@),
        ensures
            (final(self)@, r) == ran(old(self)@, budget as nat),
            builder_sound(final(self)@),
    {
        let mut left: u64 = budget;
        while left > 0
            invariant
                builder_sound(self@),
                ran(old(self)@, budget as nat) == ran(self@, left as nat),
            decreases left,
        {
            match self.step() {
                Step::Going => {
                    left -= 1;
                },
                other => {
                    return other;
                },
            }
        }
        Step::Going
    }

    /// What is asked for.
    pub fn asked(&self) -> (r: Waiting)
        ensures
            r == self@.graphics.waiting,
    {
        self.interpreter.waiting
    }

    /// The name of the archive or program that is asked for.
    pub fn asked_for(&self) -> (r: String)
        requires
            builder_sound(self@),
        ensures
            r@ == asked_name(self@),
    {
        match self.interpreter.waiting {
            Waiting::Archive { request } => {
                let q: &RibRequest = &self.pool[request];
                assert(self@.pool[request as int] == q@);
                if kinds::request_kind(q.name.as_str()) == kinds::RequestKind::ReadArchive {
                    if let Some(s) = q.string(0) {
                        return s.to_owned();
                    }
                } else {
                    if let Some(s) = interpreter::procedural_argument_from(q) {
                        return s;
                    }
                }
                let empty: String = String::new();
                assert(empty@ =~= asked_name(self@));
                empty
            },
            Waiting::Program { request } => {
                let q: &RibRequest = &self.pool[request];
                assert(self@.pool[request as int] == q@);
                if let Some(s) = interpreter::procedural_argument_from(q) {
                    return s;
                }
                let empty: String = String::new();
                assert(empty@ =~= asked_name(self@));
                empty
            },
            _ => {
                let empty: String = String::new();
                assert(empty@ =~= asked_name(self@));
                empty
            },
        }
    }

    /// Hands over the bytes of the archive, or the output of the program, that was
    /// asked for; `None` where there are none.
    pub fn answer(&mut self, content: Option<&[u8]>)
        requires
            builder_sound(old(self)@),
            old(self)@.graphics.waiting is Archive || old(self)@.graphics.waiting is Program,
        ensures
            final(self)@ == answered(
                old(self)@,
                match content {
                    Some(c) => Some(c@),
                    None => None,
                },
            ),
            builder_sound(final(self)@),
    {
        let name: String = self.asked_for();
        let archive: bool = matches!(self.interpreter.waiting, Waiting::Archive { .. });
        self.interpreter.waiting = Waiting::Nothing;
        match content {
            None => {
                let kind: WarningKind = if archive {
                    WarningKind::ArchiveUnreadable
                } else {
                    WarningKind::ProgramFailed
                };
                self.interpreter.warn_once(kind, name.as_str());
            },
            Some(bytes) => match parser::parse_rib_bytes(bytes) {
                Ok(file) => {
                    self.play(file);
                },
                Err(_) => {
                    let kind: WarningKind = if archive {
                        WarningKind::ArchiveMalformed
                    } else {
                        WarningKind::ProgramMalformed
                    };
                    self.interpreter.warn_once(kind, name.as_str());
                },
            },
        }
    }

    /// The loops of the polygon that is asked about.
    pub fn asked_polygon(&self) -> (r: Option<Vec<Vec<Vec3>>>)
        requires
            builder_sound(self@),
        ensures
            requests::opt_chains(r) == (match self@.graphics.waiting {
                Waiting::Polygon { request } => requests::polygon_loops(
                    self@.pool[request as int],
                ),
                _ => None,
            }),
    {
        match self.interpreter.waiting {
            Waiting::Polygon { request } => {
                assert(self@.pool[request as int] == self.pool@[request as int]@);
                requests::loops_from(&self.pool[request]).0
            },
            _ => None,
        }
    }

    /// Tells whether the polygon that was asked about can be cut into triangles.
    pub fn answer_polygon(&mut self, possible: bool)
        requires
            builder_sound(old(self)@),
            interpreter::has_room(old(self)@.graphics),
        ensures
            final(self)@ == polygon_answered(old(self)@, possible),
            builder_sound(final(self)@),
    {
        match self.interpreter.waiting {
            Waiting::Polygon { request } => {
                assert(self@.pool[request as int] == self.pool@[request as int]@);
                let (loops, _) = requests::loops_from(&self.pool[request]);
                self.interpreter.waiting = Waiting::Nothing;
                proof {
                    reveal(interpreter::mesh_added);
                }
                if let Some(l) = loops {
                    if possible {
                        self.interpreter.add_tessellated_mesh(&self.pool, MeshSource::Loops(l));
                    } else {
                        self.interpreter.warn_once(WarningKind::Triangulation, "");
                    }
                }
            },
            _ => {},
        }
    }

    /// Finds out whether the polygon that was asked about can be cut into triangles, and goes on
    /// with the answer.
    pub fn settle_polygon<F: Fn(Op, u64, u64) -> u64>(&mut self, f: &F)
        requires
            builder_sound(old(self)@),
            interpreter::has_room(old(self)@.graphics),
            computes(*f),
        ensures
            final(self)@ == polygon_answered(old(self)@, polygon_is_possible(*f, old(self)@)),
            builder_sound(final(self)@),
    {
        let possible: bool = match self.asked_polygon() {
            Some(loops) => {
                assert(earclip::loop_views(loops@) =~= requests::opt_chains(Some(loops))->0);
                can_triangulate(&loops, f)
            },
            None => false,
        };
        self.answer_polygon(possible);
    }

    /// The scene as described so far.
    pub fn scene(&self) -> (r: &Interpreter)
        ensures
            r@ == self@.graphics,
    {
        &self.interpreter
    }

    /// Request `i` of those that were given.
    pub fn request(&self, i: usize) -> (r: Option<&RibRequest>)
        ensures
            match r {
                Some(q) => i < self@.pool.len() && q@ == self@.pool[i as int],
                None => i >= self@.pool.len(),
            },
    {
        if i < self.pool.len() {
            Some(&self.pool[i])
        } else {
            None
        }
    }
}

} // verus!
