//! What blocks save, the end of a block restores: whole lists of requests in which every block
//! is closed, and runs of a builder in which none is closed that was open before.

use crate::parser::ast;
use crate::parser::interpreter;
use crate::parser::interpreter::{Graphics, WarningKind};
use crate::parser::kinds;
use crate::parser::kinds::RequestKind;
use crate::parser::requests;
use crate::parser::scene::GraphicsState;
use crate::parser::scene_builder;
use crate::parser::scene_builder::BuilderView;
use vstd::prelude::*;

verus! {

// ---- single requests -------------------------------------------------------

/// What blocks have saved is the same, and so is what is being recorded and what was.
spec fn same_blocks(g: Graphics, h: Graphics) -> bool {
    &&& h.attribute_stack == g.attribute_stack
    &&& h.transform_stack == g.transform_stack
    &&& h.recording == g.recording
    &&& h.in_motion == g.in_motion
    &&& h.motion == g.motion
    &&& h.archives == g.archives
}

/// The end of an attribute block restores the attributes and the transform of its start,
/// whatever happened to them in between; the stacks are then those before the block.
pub proof fn attribute_block_restores(g: Graphics, inside: Graphics)
    requires
        inside.attribute_stack == interpreter::attributes_pushed(g).attribute_stack,
        inside.transform_stack == interpreter::attributes_pushed(g).transform_stack,
    ensures
        interpreter::attributes_popped(inside).state == g.state,
        interpreter::attributes_popped(inside).transform == g.transform,
        interpreter::attributes_popped(inside).attribute_stack == g.attribute_stack,
        interpreter::attributes_popped(inside).transform_stack == g.transform_stack,
{
    assert(g.attribute_stack.push(g.state).drop_last() =~= g.attribute_stack);
    assert(g.transform_stack.push(g.transform).drop_last() =~= g.transform_stack);
}

/// The end of a transform block restores the transform of its start, and leaves the
/// attributes alone.
pub proof fn transform_block_restores(g: Graphics, inside: Graphics)
    requires
        inside.transform_stack == interpreter::transform_pushed(g).transform_stack,
    ensures
        interpreter::transform_popped(inside).transform == g.transform,
        interpreter::transform_popped(inside).transform_stack == g.transform_stack,
        interpreter::transform_popped(inside).state == inside.state,
{
    assert(g.transform_stack.push(g.transform).drop_last() =~= g.transform_stack);
}

/// Whether a request opens or closes a block.
pub open spec fn is_block(kind: kinds::RequestKind) -> bool {
    kind is AttributeBegin || kind is AttributeEnd || kind is TransformBegin || kind is TransformEnd
        || kind is ObjectBegin || kind is ObjectEnd
}

/// A request that neither opens nor closes a block, and ends no motion block, leaves
/// alone what blocks have saved.
pub proof fn plain_requests_keep_stacks(
    g: Graphics,
    pool: Seq<ast::RequestView>,
    r: usize,
    depth: nat,
)
    requires
        !is_block(interpreter::kind_at(pool, r)),
        !(interpreter::kind_at(pool, r) is MotionEnd),
    ensures
        ({
            let h = interpreter::request_read(g, pool, r, depth).0;
            &&& h.attribute_stack == g.attribute_stack
            &&& h.transform_stack == g.transform_stack
        }),
{
    reveal(interpreter::request_read);
    reveal(interpreter::request_done);
    reveal(interpreter::processed);
    reveal(interpreter::procedural_applied);
    reveal(interpreter::archive_asked);
    let kind = interpreter::kind_at(pool, r);
    if kind is MotionBegin || kind is ArchiveBegin {
        reveal(interpreter::processed_here);
    } else {
        here_keeps_stacks(g, pool, r, kind);
    }
}

#[verifier::spinoff_prover]
#[verifier::rlimit(60)]
proof fn here_keeps_stacks(
    g: Graphics,
    pool: Seq<ast::RequestView>,
    r: usize,
    kind: kinds::RequestKind,
)
    requires
        !is_block(kind),
        !(kind is MotionBegin),
        !(kind is ArchiveBegin),
    ensures
        same_blocks(g, interpreter::processed_here(g, pool, pool[r as int], r, kind)),
{
    let q = pool[r as int];
    reveal(interpreter::processed_here);
    if interpreter::is_option(kind) {
        reveal(interpreter::option_applied);
    } else if interpreter::is_transform(kind) {
        reveal(interpreter::transform_applied);
    } else if interpreter::is_attribute(kind) {
        reveal(interpreter::attribute_applied);
    } else if interpreter::is_quadric(kind) {
        reveal(interpreter::primitive_added);
    } else if kind is ObjectInstance {
        reveal(interpreter::object_applied);
    } else if kind is Interior || kind is Atmosphere {
        reveal(interpreter::medium_applied);
    } else if kind is Light {
        reveal(interpreter::light_applied);
    } else if kind is Bxdf {
        bxdf_keeps_stacks(g, q, r);
    } else if kind is Pattern {
        reveal(interpreter::pattern_applied);
    } else {
        reveal(interpreter::loops_applied);
        reveal(interpreter::mesh_added);
        reveal(interpreter::curves_added);
        if kind is Curves || kind is Points {
            reveal(interpreter::strands_applied);
            reveal(interpreter::particles_applied);
        } else if kind is PointsPolygons || kind is PointsGeneralPolygons {
            reveal(interpreter::general_polygons_applied);
            reveal(interpreter::polygons_applied);
        } else if kind is PatchMesh || kind is NuPatch {
            reveal(interpreter::patch_applied);
            reveal(interpreter::nu_patch_applied);
        } else if kind is Polygon {
            reveal(interpreter::polygon_applied);
        } else if kind is SubdivisionMesh || kind is HierarchicalSubdivisionMesh {
            reveal(interpreter::subdivision_applied);
            let tags = requests::subdivision_tags(q).0.unsupported;
            let g0 = if kind is HierarchicalSubdivisionMesh {
                interpreter::warned(g, WarningKind::Hierarchical, ""@)
            } else {
                g
            };
            if let Some(scheme) = q.text(0) {
                warnings_keep_stacks(g0, WarningKind::SubdivisionTag, tags);
                warnings_keep_stacks(
                    interpreter::warned(g0, WarningKind::SubdivisionScheme, scheme),
                    WarningKind::SubdivisionTag,
                    tags,
                );
            }
        }
    }
}

proof fn warnings_keep_stacks(g: Graphics, kind: WarningKind, names: Seq<Seq<char>>)
    ensures
        same_blocks(g, interpreter::warned_each(g, kind, names)),
    decreases names.len(),
{
    if names.len() > 0 {
        warnings_keep_stacks(g, kind, names.drop_last());
    }
}

proof fn bound_keeps_stacks(g: Graphics, pairs: Seq<(Seq<char>, ast::ValueView)>, n: int)
    ensures
        same_blocks(g, interpreter::bound_until(g, pairs, n).0),
    decreases n,
{
    if n > 0 {
        bound_keeps_stacks(g, pairs, n - 1);
    }
}

proof fn bxdf_keeps_stacks(g: Graphics, q: ast::RequestView, r: usize)
    ensures
        same_blocks(g, interpreter::bxdf_applied(g, q, r)),
{
    reveal(interpreter::bxdf_applied);
    let name = requests::or_default(q.text(0), ""@);
    let params = q.params(requests::params_start(q));
    let g1 = Graphics {
        state: GraphicsState { hair: None, bxdf: Some(g.bxdfs.len() as usize), ..g.state },
        ..g
    };
    bound_keeps_stacks(g1, params, params.len() as int);
    bound_keeps_stacks(
        interpreter::warned(g1, WarningKind::UnknownBxdf, name),
        params,
        params.len() as int,
    );
}

// ---- tops of stacks --------------------------------------------------------

/// Whether a stack is another, or the other with one entry more or less on top.
pub open spec fn top_moved<T>(before: Seq<T>, after: Seq<T>) -> bool {
    ||| after == before
    ||| after.len() == before.len() + 1 && after.drop_last() == before
    ||| before.len() > 0 && after == before.drop_last()
}

/// Whether only the tops of the stacks were moved.
pub open spec fn tops_moved(g: Graphics, h: Graphics) -> bool {
    top_moved(g.attribute_stack, h.attribute_stack) && top_moved(
        g.transform_stack,
        h.transform_stack,
    )
}

proof fn push_moves_top<T>(s: Seq<T>, x: T)
    ensures
        top_moved(s, s.push(x)),
{
    assert(s.push(x).drop_last() =~= s);
}

proof fn processing_moves_tops(
    g: Graphics,
    pool: Seq<ast::RequestView>,
    r: usize,
    depth: nat,
)
    ensures
        tops_moved(g, interpreter::processed(g, pool, r, depth).0),
{
    reveal(interpreter::processed);
    reveal(interpreter::procedural_applied);
    reveal(interpreter::archive_asked);
    let kind = interpreter::kind_at(pool, r);
    push_moves_top(g.attribute_stack, g.state);
    push_moves_top(g.transform_stack, g.transform);
    if is_block(kind) || kind is MotionBegin || kind is ArchiveBegin {
        reveal(interpreter::processed_here);
        reveal(interpreter::object_applied);
    } else {
        here_keeps_stacks(g, pool, r, kind);
    }
}

/// Whatever a request does, it moves the tops of the stacks alone, each by one entry at most.
pub proof fn requests_move_tops(g: Graphics, pool: Seq<ast::RequestView>, r: usize, depth: nat)
    ensures
        tops_moved(g, interpreter::request_read(g, pool, r, depth).0),
{
    reveal(interpreter::request_read);
    reveal(interpreter::request_done);
    if interpreter::kind_at(pool, r) is MotionEnd {
        motion_moves_tops(
            Graphics { in_motion: false, motion: seq![], ..g },
            pool,
            g.motion,
            depth,
        );
    } else {
        processing_moves_tops(g, pool, r, depth);
    }
}

/// Whether a request plays an archive.
pub open spec fn is_playing(kind: RequestKind) -> bool {
    kind is ReadArchive || kind is Procedural
}

proof fn motion_moves_tops(
    g: Graphics,
    pool: Seq<ast::RequestView>,
    block: Seq<usize>,
    depth: nat,
)
    ensures
        tops_moved(g, interpreter::motion_resolved(g, pool, block, depth).0),
        (forall|i: int|
            0 <= i < block.len() ==> is_simple(interpreter::kind_at(pool, #[trigger] block[i])))
            ==> same_blocks(g, interpreter::motion_resolved(g, pool, block, depth).0)
            && interpreter::motion_resolved(g, pool, block, depth).1 is None,
{
    reveal(interpreter::motion_resolved);
    if block.len() > 0 {
        let first = block[0];
        let q = pool[first as int];
        if interpreter::moves_transform(pool, block) {
            reveal(interpreter::transform_applied);
        } else if interpreter::deforms_polygons(pool, block) {
            reveal(interpreter::general_polygons_applied);
            reveal(interpreter::polygons_applied);
            reveal(interpreter::mesh_added);
        } else {
            let h = interpreter::warned(g, WarningKind::Motion, q.name);
            processing_moves_tops(h, pool, first, depth);
            let kind = interpreter::kind_at(pool, first);
            if is_simple(kind) {
                reveal(interpreter::processed);
                here_keeps_stacks(h, pool, first, kind);
            }
        }
    }
}

// ---- runs ------------------------------------------------------------------

/// Whether a stack starts with all that another holds.
pub open spec fn stands_on<T>(below: Seq<T>, s: Seq<T>) -> bool {
    below.len() <= s.len() && s.take(below.len() as int) == below
}

/// Whether what blocks had saved is still saved.
pub open spec fn still_saved(g: Graphics, h: Graphics) -> bool {
    stands_on(g.attribute_stack, h.attribute_stack) && stands_on(
        g.transform_stack,
        h.transform_stack,
    )
}

/// Whether as much is saved as before, or more.
pub open spec fn no_lower(g: Graphics, h: Graphics) -> bool {
    g.attribute_stack.len() <= h.attribute_stack.len() && g.transform_stack.len()
        <= h.transform_stack.len()
}

/// Whether as much is saved as before.
pub open spec fn as_high(g: Graphics, h: Graphics) -> bool {
    g.attribute_stack.len() == h.attribute_stack.len() && g.transform_stack.len()
        == h.transform_stack.len()
}

proof fn stays_on<T>(below: Seq<T>, s: Seq<T>, t: Seq<T>)
    requires
        stands_on(below, s),
        top_moved(s, t),
        below.len() <= t.len(),
    ensures
        stands_on(below, t),
{
    let n = below.len() as int;
    if t.len() == s.len() + 1 {
        assert(t.take(n) =~= t.drop_last().take(n));
    } else if t != s {
        assert(t.take(n) =~= s.take(n));
    }
}

proof fn saved_stays(base: Graphics, g: Graphics, h: Graphics)
    requires
        still_saved(base, g),
        tops_moved(g, h),
        no_lower(base, h),
    ensures
        still_saved(base, h),
{
    stays_on(base.attribute_stack, g.attribute_stack, h.attribute_stack);
    stays_on(base.transform_stack, g.transform_stack, h.transform_stack);
}

/// As long as no block is closed that was open before, whatever is played leaves alone what
/// was saved: archives, objects, motion blocks and blocks of all kinds.
pub proof fn runs_keep_saved(base: Graphics, b: BuilderView, n: nat)
    requires
        still_saved(base, b.graphics),
        forall|k: nat| k <= n ==> no_lower(base, (#[trigger] scene_builder::ran(b, k)).0.graphics),
    ensures
        still_saved(base, scene_builder::ran(b, n).0.graphics),
    decreases n,
{
    if n > 0 {
        let (c, step) = scene_builder::stepped(b);
        if step is Going {
            if interpreter::has_room(b.graphics) && b.frames.len() > 0 {
                let (list, next) = b.frames.last();
                if next < list.len() {
                    requests_move_tops(
                        b.graphics,
                        b.pool,
                        list[next as int],
                        (b.frames.len() - 1) as nat,
                    );
                }
            }
            assert(scene_builder::ran(c, 0).0 == c);
            assert(scene_builder::ran(b, 1).0 == c);
            saved_stays(base, b.graphics, c.graphics);
            assert forall|k: nat| k <= n - 1 implies no_lower(
                base,
                (#[trigger] scene_builder::ran(c, k)).0.graphics,
            ) by {
                assert(scene_builder::ran(b, k + 1) == scene_builder::ran(c, k));
            }
            runs_keep_saved(base, c, (n - 1) as nat);
        }
    }
}

/// Handing over an archive or what a program wrote, or saying whether a polygon can be cut,
/// leaves alone what was saved.
pub proof fn answers_keep_saved(b: BuilderView, content: Option<Seq<u8>>, possible: bool)
    ensures
        ({
            let (g, h) = (b.graphics, scene_builder::answered(b, content).graphics);
            h.attribute_stack == g.attribute_stack && h.transform_stack == g.transform_stack
        }),
        ({
            let (g, h) = (b.graphics, scene_builder::polygon_answered(b, possible).graphics);
            h.attribute_stack == g.attribute_stack && h.transform_stack == g.transform_stack
        }),
{
    reveal(interpreter::mesh_added);
}

/// The end of an attribute block restores the attributes and the transform of its start, after
/// any run in which no block is closed that was open before and all that were opened are
/// closed.
pub proof fn attribute_block_restores_after_run(g: Graphics, b: BuilderView, n: nat)
    requires
        b.graphics == interpreter::attributes_pushed(g),
        forall|k: nat|
            k <= n ==> no_lower(b.graphics, (#[trigger] scene_builder::ran(b, k)).0.graphics),
        as_high(b.graphics, scene_builder::ran(b, n).0.graphics),
    ensures
        ({
            let h = interpreter::attributes_popped(scene_builder::ran(b, n).0.graphics);
            &&& h.state == g.state
            &&& h.transform == g.transform
            &&& h.attribute_stack == g.attribute_stack
            &&& h.transform_stack == g.transform_stack
        }),
{
    let base = b.graphics;
    assert(base.attribute_stack.take(base.attribute_stack.len() as int) =~= base.attribute_stack);
    assert(base.transform_stack.take(base.transform_stack.len() as int) =~= base.transform_stack);
    runs_keep_saved(base, b, n);
    let inside = scene_builder::ran(b, n).0.graphics;
    saved_is_all(base, inside);
    attribute_block_restores(g, inside);
}

proof fn saved_is_all(g: Graphics, h: Graphics)
    requires
        still_saved(g, h),
        as_high(g, h),
    ensures
        h.attribute_stack == g.attribute_stack,
        h.transform_stack == g.transform_stack,
{
    assert(h.attribute_stack.take(g.attribute_stack.len() as int) =~= h.attribute_stack);
    assert(h.transform_stack.take(g.transform_stack.len() as int) =~= h.transform_stack);
}

// ---- whole lists -----------------------------------------------------------

/// Whether a request opens or closes a block or a recording.
pub open spec fn is_recorded(kind: RequestKind) -> bool {
    is_block(kind) || kind is MotionBegin || kind is MotionEnd || kind is ArchiveBegin
}

/// Whether a request neither opens or closes anything nor plays an archive.
pub open spec fn is_simple(kind: RequestKind) -> bool {
    !is_recorded(kind) && !is_playing(kind)
}

/// The state after the first `n` requests of a list were read, at a depth of archives. Inline
/// archives are played where they are asked for; of others nothing comes.
pub open spec fn list_played(
    g: Graphics,
    pool: Seq<ast::RequestView>,
    list: Seq<usize>,
    n: int,
    depth: nat,
) -> Graphics
    decreases interpreter::MAX_ARCHIVE_DEPTH - depth, n,
{
    if n <= 0 {
        g
    } else {
        let before = list_played(g, pool, list, n - 1, depth);
        let (h, play) = interpreter::request_read(before, pool, list[n - 1], depth);
        match play {
            Some(archive) if depth < interpreter::MAX_ARCHIVE_DEPTH => list_played(
                h,
                pool,
                archive,
                archive.len() as int,
                depth + 1,
            ),
            _ => h,
        }
    }
}

/// Where a list stands: the requests that opened the blocks that are open, those of the
/// archive that is being recorded, and whether a motion block is open.
pub struct Nest {
    pub blocks: Seq<RequestKind>,
    pub recorded: Option<Seq<usize>>,
    pub in_motion: bool,
}

/// Nothing is open.
pub open spec fn all_closed() -> Nest {
    Nest { blocks: seq![], recorded: None, in_motion: false }
}

/// Whether the second request closes what the first opens.
pub open spec fn closes(open: RequestKind, close: RequestKind) -> bool {
    ||| open is AttributeBegin && close is AttributeEnd
    ||| open is TransformBegin && close is TransformEnd
    ||| open is ObjectBegin && close is ObjectEnd
}

/// Where a list that records no archive stands after one more request. None where a block is
/// closed that is not the one opened last, where a motion block is closed that is not open,
/// or where one holds what opens or closes something or plays an archive.
pub open spec fn nested(s: Nest, q: ast::RequestView) -> Option<Nest> {
    let kind = kinds::kind_of(q.name);
    if s.in_motion {
        if kind is MotionEnd {
            Some(Nest { in_motion: false, ..s })
        } else if is_simple(kind) {
            Some(s)
        } else {
            None
        }
    } else if kind is AttributeBegin || kind is TransformBegin || kind is ObjectBegin {
        Some(Nest { blocks: s.blocks.push(kind), ..s })
    } else if is_block(kind) {
        if s.blocks.len() > 0 && closes(s.blocks.last(), kind) {
            Some(Nest { blocks: s.blocks.drop_last(), ..s })
        } else {
            None
        }
    } else if kind is MotionBegin {
        Some(Nest { in_motion: true, ..s })
    } else if kind is ArchiveBegin {
        Some(
            Nest {
                recorded: if q.text(0) is Some {
                    Some(seq![])
                } else {
                    None
                },
                ..s
            },
        )
    } else if kind is MotionEnd {
        None
    } else {
        Some(s)
    }
}

/// Where a list stands after its first `n` requests. An archive that it records must close
/// all that it opens, too.
pub open spec fn nest_after(pool: Seq<ast::RequestView>, list: Seq<usize>, n: int) -> Option<Nest>
    decreases n,
{
    if n <= 0 {
        Some(all_closed())
    } else {
        let r = list[n - 1];
        match nest_after(pool, list, n - 1) {
            None => None,
            Some(s) => match s.recorded {
                None => nested(s, pool[r as int]),
                Some(archive) => if !(interpreter::kind_at(pool, r) is ArchiveEnd) {
                    Some(Nest { recorded: Some(archive.push(r)), ..s })
                } else if archive.len() < n && nest_after(pool, archive, archive.len() as int)
                    == Some(all_closed()) {
                    Some(Nest { recorded: None, ..s })
                } else {
                    None
                },
            },
        }
    }
}

/// Whether every block, motion block and inline archive of a list is closed in it, and so in
/// the archives that it records.
pub open spec fn is_balanced(pool: Seq<ast::RequestView>, list: Seq<usize>) -> bool {
    nest_after(pool, list, list.len() as int) == Some(all_closed())
}

/// Whether all inline archives are balanced.
pub open spec fn archives_balanced(g: Graphics, pool: Seq<ast::RequestView>) -> bool {
    forall|i: int| 0 <= i < g.archives.len() ==> is_balanced(pool, (#[trigger] g.archives[i]).1)
}

/// How many of the open blocks save attributes.
spec fn saving(blocks: Seq<RequestKind>) -> int
    decreases blocks.len(),
{
    if blocks.len() == 0 {
        0
    } else {
        saving(blocks.drop_last()) + if blocks.last() is TransformBegin {
            0int
        } else {
            1
        }
    }
}

proof fn saving_counts(blocks: Seq<RequestKind>)
    ensures
        saving(blocks) >= 0,
    decreases blocks.len(),
{
    if blocks.len() > 0 {
        saving_counts(blocks.drop_last());
    }
}

/// What a state is where a list stands so.
spec fn fits(base: Graphics, s: Nest, g: Graphics, pool: Seq<ast::RequestView>) -> bool {
    &&& still_saved(base, g)
    &&& archives_balanced(g, pool)
    &&& g.attribute_stack.len() == base.attribute_stack.len() + saving(s.blocks)
    &&& g.transform_stack.len() == base.transform_stack.len() + s.blocks.len()
    &&& match s.recorded {
        Some(archive) => g.recording matches Some((_, list)) && list == archive,
        None => g.recording is None,
    }
    &&& g.in_motion == s.in_motion
    &&& s.in_motion ==> forall|i: int|
        0 <= i < g.motion.len() ==> is_simple(interpreter::kind_at(pool, #[trigger] g.motion[i]))
    &&& forall|i: int|
        0 <= i < s.blocks.len() ==> ((#[trigger] s.blocks[i]) is AttributeBegin || s.blocks[i] is
            TransformBegin || s.blocks[i] is ObjectBegin)
}

/// A request that is read while no archive is recorded, and what it plays.
#[verifier::spinoff_prover]
#[verifier::rlimit(60)]
proof fn reading_fits(
    base: Graphics,
    s: Nest,
    g: Graphics,
    pool: Seq<ast::RequestView>,
    r: usize,
    depth: nat,
)
    requires
        fits(base, s, g, pool),
        s.recorded is None,
        nested(s, pool[r as int]) is Some,
    ensures
        ({
            let (h, play) = interpreter::request_read(g, pool, r, depth);
            &&& fits(base, nested(s, pool[r as int])->0, h, pool)
            &&& play matches Some(archive) ==> is_balanced(pool, archive) && !h.in_motion
                && h.recording is None && nested(s, pool[r as int])->0 == s
        }),
{
    let q = pool[r as int];
    let kind = interpreter::kind_at(pool, r);
    let t = nested(s, q)->0;
    let h = interpreter::request_read(g, pool, r, depth).0;
    requests_move_tops(g, pool, r, depth);
    saving_counts(s.blocks);
    saving_counts(t.blocks);
    reveal(interpreter::request_read);
    reveal(interpreter::request_done);
    if s.in_motion {
        if kind is MotionEnd {
            motion_moves_tops(
                Graphics { in_motion: false, motion: seq![], ..g },
                pool,
                g.motion,
                depth,
            );
        }
    } else {
        reveal(interpreter::processed);
        if is_playing(kind) {
            playing_fits(g, pool, r, depth);
        } else if is_block(kind) || kind is MotionBegin || kind is ArchiveBegin {
            reveal(interpreter::processed_here);
            reveal(interpreter::object_applied);
            if kind is AttributeBegin || kind is TransformBegin || kind is ObjectBegin {
                assert(s.blocks.push(kind).drop_last() =~= s.blocks);
            }
        } else {
            here_keeps_stacks(g, pool, r, kind);
        }
    }
    saved_stays(base, g, h);
}

/// What is played is one of the archives.
proof fn playing_fits(g: Graphics, pool: Seq<ast::RequestView>, r: usize, depth: nat)
    requires
        is_playing(interpreter::kind_at(pool, r)),
        archives_balanced(g, pool),
    ensures
        ({
            let (h, play) = interpreter::processed(g, pool, r, depth);
            &&& same_blocks(g, h)
            &&& play matches Some(archive) ==> is_balanced(pool, archive)
        }),
{
    reveal(interpreter::processed);
    reveal(interpreter::procedural_applied);
    reveal(interpreter::archive_asked);
    let q = pool[r as int];
    if let Some(name) = q.text(0) {
        entry_is_there(g.archives, name);
    }
    if let Some(name) = interpreter::procedural_argument(q) {
        entry_is_there(g.archives, name);
    }
}

proof fn entry_is_there(entries: Seq<(Seq<char>, Seq<usize>)>, name: Seq<char>)
    ensures
        interpreter::last_entry(entries, name) matches Some(list) ==> exists|i: int|
            0 <= i < entries.len() && (#[trigger] entries[i]).1 == list,
    decreases entries.len(),
{
    if entries.len() > 0 {
        entry_is_there(entries.drop_last(), name);
        assert(entries.last() == entries[entries.len() - 1]);
        if let Some(list) = interpreter::last_entry(entries.drop_last(), name) {
            let before = entries.drop_last();
            let i = choose|i: int| 0 <= i < before.len() && (#[trigger] before[i]).1 == list;
            assert(entries[i] == before[i]);
        }
    }
}

proof fn recording_fits(
    base: Graphics,
    s: Nest,
    g: Graphics,
    pool: Seq<ast::RequestView>,
    r: usize,
    depth: nat,
)
    requires
        fits(base, s, g, pool),
        s.recorded is Some,
        interpreter::kind_at(pool, r) is ArchiveEnd ==> is_balanced(pool, s.recorded->0),
    ensures
        ({
            let (h, play) = interpreter::request_read(g, pool, r, depth);
            let recorded = if interpreter::kind_at(pool, r) is ArchiveEnd {
                None
            } else {
                Some((s.recorded->0).push(r))
            };
            fits(base, Nest { recorded, ..s }, h, pool) && play is None
        }),
{
    reveal(interpreter::request_read);
}

proof fn base_fits(base: Graphics, pool: Seq<ast::RequestView>)
    requires
        base.recording is None,
        !base.in_motion,
        archives_balanced(base, pool),
    ensures
        fits(base, all_closed(), base, pool),
{
    assert(base.attribute_stack.take(base.attribute_stack.len() as int) =~= base.attribute_stack);
    assert(base.transform_stack.take(base.transform_stack.len() as int) =~= base.transform_stack);
}

#[verifier::spinoff_prover]
proof fn list_fits(
    base: Graphics,
    pool: Seq<ast::RequestView>,
    list: Seq<usize>,
    n: int,
    depth: nat,
)
    requires
        base.recording is None,
        !base.in_motion,
        archives_balanced(base, pool),
        nest_after(pool, list, n) is Some,
    ensures
        fits(base, nest_after(pool, list, n)->0, list_played(base, pool, list, n, depth), pool),
    decreases interpreter::MAX_ARCHIVE_DEPTH - depth, n,
{
    if n <= 0 {
        base_fits(base, pool);
    } else {
        list_fits(base, pool, list, n - 1, depth);
        let s = nest_after(pool, list, n - 1)->0;
        let g = list_played(base, pool, list, n - 1, depth);
        let r = list[n - 1];
        let (h, play) = interpreter::request_read(g, pool, r, depth);
        if s.recorded is Some {
            recording_fits(base, s, g, pool, r, depth);
        } else {
            reading_fits(base, s, g, pool, r, depth);
            if let Some(archive) = play {
                if depth < interpreter::MAX_ARCHIVE_DEPTH {
                    list_fits(h, pool, archive, archive.len() as int, depth + 1);
                    let after = list_played(h, pool, archive, archive.len() as int, depth + 1);
                    saved_is_all(h, after);
                }
            }
        }
    }
}

/// A list in which every block is closed leaves what was saved before as it was, whatever the
/// blocks are, however they are nested, and whatever archives are recorded and played.
pub proof fn balanced_lists_keep_saved(
    g: Graphics,
    pool: Seq<ast::RequestView>,
    list: Seq<usize>,
    depth: nat,
)
    requires
        g.recording is None,
        !g.in_motion,
        archives_balanced(g, pool),
        is_balanced(pool, list),
    ensures
        ({
            let h = list_played(g, pool, list, list.len() as int, depth);
            &&& h.attribute_stack == g.attribute_stack
            &&& h.transform_stack == g.transform_stack
            &&& h.recording is None
            &&& !h.in_motion
            &&& archives_balanced(h, pool)
        }),
{
    list_fits(g, pool, list, list.len() as int, depth);
    saved_is_all(g, list_played(g, pool, list, list.len() as int, depth));
}

/// An attribute block around any list in which every block is closed changes neither the
/// attributes, nor the transform, nor what was saved before it.
pub proof fn balanced_attribute_blocks_restore(
    g: Graphics,
    pool: Seq<ast::RequestView>,
    begin: usize,
    list: Seq<usize>,
    end: usize,
    depth: nat,
)
    requires
        g.recording is None,
        !g.in_motion,
        archives_balanced(g, pool),
        interpreter::kind_at(pool, begin) is AttributeBegin,
        interpreter::kind_at(pool, end) is AttributeEnd,
        is_balanced(pool, list),
    ensures
        ({
            let inside = interpreter::request_read(g, pool, begin, depth).0;
            let after = list_played(inside, pool, list, list.len() as int, depth);
            let h = interpreter::request_read(after, pool, end, depth).0;
            &&& h.state == g.state
            &&& h.transform == g.transform
            &&& h.attribute_stack == g.attribute_stack
            &&& h.transform_stack == g.transform_stack
        }),
{
    let inside = interpreter::request_read(g, pool, begin, depth).0;
    let after = list_played(inside, pool, list, list.len() as int, depth);
    reveal(interpreter::request_read);
    reveal(interpreter::request_done);
    reveal(interpreter::processed);
    reveal(interpreter::processed_here);
    assert(inside == interpreter::attributes_pushed(g));
    balanced_lists_keep_saved(inside, pool, list, depth);
    attribute_block_restores(g, after);
}

} // verus!
