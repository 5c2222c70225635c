//! Uniform Catmull-Clark subdivision over arbitrary polygon cages, with
//! crease/corner sharpness (semi-sharp decay), boundary interpolation, and hole
//! faces.
//!
//! A round of subdivision is planned first: which points the next cage has and by
//! which rule each is placed, its faces, and the sharpness that is left.

use crate::arith::{computes, Op};
use crate::double;
use crate::geometry::mesh;
use crate::geometry::mesh::{PolygonMesh, PolygonMeshView, Single3};
use crate::geometry::normals;
use crate::geometry::normals::{narrow_triple, smooth_normals};
use crate::geometry::placing;
use crate::geometry::placing::place_point;
use crate::math::{Vec3, ONE, ZERO};
use std::collections::HashMap;
use vstd::prelude::*;

verus! {

/// A crease along the edge between two vertices.
#[derive(Clone, Copy, Debug, PartialEq, Eq, Structural)]
pub struct Crease {
    pub a: u32,
    pub b: u32,
    pub sharpness: u64,
}

/// A sharp vertex.
#[derive(Clone, Copy, Debug, PartialEq, Eq, Structural)]
pub struct Corner {
    pub vertex: u32,
    pub sharpness: u64,
}

/// A subdivision cage; sharpness by the bits of its doubles.
#[derive(Debug)]
pub struct SubdivCage {
    pub positions: Vec<Vec3>,
    /// Faces as vertex-index rings (arbitrary n-gons).
    pub faces: Vec<Vec<u32>>,
    pub crease_edges: Vec<Crease>,
    pub corners: Vec<Corner>,
    /// Face indices removed from the surface.
    pub holes: Vec<u32>,
    /// Pin boundary edges and vertices.
    pub interpolate_boundary: bool,
}

/// What a cage is.
pub struct CageView {
    pub positions: Seq<Vec3>,
    pub faces: Seq<Seq<u32>>,
    pub crease_edges: Seq<Crease>,
    pub corners: Seq<Corner>,
    pub holes: Seq<u32>,
    pub interpolate_boundary: bool,
}

/// The indices of each ring.
pub open spec fn ring_views(faces: Seq<Vec<u32>>) -> Seq<Seq<u32>> {
    faces.map_values(|f: Vec<u32>| f@)
}

impl View for SubdivCage {
    type V = CageView;

    open spec fn view(&self) -> CageView {
        CageView {
            positions: self.positions@,
            faces: ring_views(self.faces@),
            crease_edges: self.crease_edges@,
            corners: self.corners@,
            holes: self.holes@,
            interpolate_boundary: self.interpolate_boundary,
        }
    }
}

/// An edge, by its vertices, the smaller first.
#[derive(Clone, Copy, Debug, PartialEq, Eq, Structural)]
pub struct EdgeKey(pub u32, pub u32);

/// The edge between two vertices.
pub open spec fn edge_between(a: u32, b: u32) -> EdgeKey {
    if a < b {
        EdgeKey(a, b)
    } else {
        EdgeKey(b, a)
    }
}

impl EdgeKey {
    /// The edge between two vertices.
    pub fn new(a: u32, b: u32) -> (r: EdgeKey)
        ensures
            r == edge_between(a, b),
    {
        if a < b {
            EdgeKey(a, b)
        } else {
            EdgeKey(b, a)
        }
    }
}

/// A side of a face: from its corner `a` to the next one.
#[derive(Clone, Copy, Debug, PartialEq, Eq, Structural)]
pub struct HalfEdge {
    pub face: u32,
    pub a: u32,
    pub b: u32,
}

/// The edge that a side lies on.
pub open spec fn edge_of(h: HalfEdge) -> EdgeKey {
    edge_between(h.a, h.b)
}

/// The sides of a face, in the order of its ring.
pub open spec fn sides(face: u32, ring: Seq<u32>) -> Seq<HalfEdge> {
    Seq::new(
        ring.len(),
        |i: int| HalfEdge { face, a: ring[i], b: ring[(i + 1) % (ring.len() as int)] },
    )
}

/// The sides of all faces, face after face.
pub open spec fn all_sides(faces: Seq<Seq<u32>>) -> Seq<HalfEdge>
    decreases faces.len(),
{
    if faces.len() == 0 {
        seq![]
    } else {
        all_sides(faces.drop_last()) + sides((faces.len() - 1) as u32, faces.last())
    }
}

/// The edges that these sides lie on, each where it occurs first.
pub open spec fn edges_of(h: Seq<HalfEdge>) -> Seq<EdgeKey>
    decreases h.len(),
{
    if h.len() == 0 {
        seq![]
    } else {
        let before = edges_of(h.drop_last());
        if before.contains(edge_of(h.last())) {
            before
        } else {
            before.push(edge_of(h.last()))
        }
    }
}

/// The faces with a side on an edge, one for each such side.
pub open spec fn faces_along(h: Seq<HalfEdge>, e: EdgeKey) -> Seq<u32>
    decreases h.len(),
{
    if h.len() == 0 {
        seq![]
    } else {
        let before = faces_along(h.drop_last(), e);
        if edge_of(h.last()) == e {
            before.push(h.last().face)
        } else {
            before
        }
    }
}

/// The edges at a vertex, each where it occurs first.
pub open spec fn edges_at(h: Seq<HalfEdge>, v: u32) -> Seq<EdgeKey>
    decreases h.len(),
{
    if h.len() == 0 {
        seq![]
    } else {
        let before = edges_at(h.drop_last(), v);
        let s = h.last();
        if (s.a == v || s.b == v) && !before.contains(edge_of(s)) {
            before.push(edge_of(s))
        } else {
            before
        }
    }
}

/// The faces with a corner at a vertex, each where it occurs first.
pub open spec fn faces_at(h: Seq<HalfEdge>, v: u32) -> Seq<u32>
    decreases h.len(),
{
    if h.len() == 0 {
        seq![]
    } else {
        let before = faces_at(h.drop_last(), v);
        let s = h.last();
        if s.a == v && !before.contains(s.face) {
            before.push(s.face)
        } else {
            before
        }
    }
}

/// The sharpness of an edge: that of the last crease along it, or none.
pub open spec fn edge_sharpness(creases: Seq<Crease>, e: EdgeKey) -> u64
    decreases creases.len(),
{
    if creases.len() == 0 {
        ZERO
    } else if edge_between(creases.last().a, creases.last().b) == e {
        double::greater(creases.last().sharpness, ZERO)
    } else {
        edge_sharpness(creases.drop_last(), e)
    }
}

/// The sharpness of a vertex: that of the last corner at it, or none.
pub open spec fn vertex_sharpness(corners: Seq<Corner>, v: u32) -> u64
    decreases corners.len(),
{
    if corners.len() == 0 {
        ZERO
    } else if corners.last().vertex == v {
        double::greater(corners.last().sharpness, ZERO)
    } else {
        vertex_sharpness(corners.drop_last(), v)
    }
}

/// How a point of the next cage is placed. Faces are named by their points.
#[derive(Debug)]
pub enum PointRule {
    /// In the middle of a face: the mean of its corners.
    Face(u32),
    /// In the middle of an edge.
    Middle(u32, u32),
    /// The mean of the ends of an edge and of the points of the faces along it;
    /// moved towards the middle of the edge by the sharpness, if there is one.
    Edge { a: u32, b: u32, faces: Vec<u32>, sharpness: Option<u64> },
    /// A vertex that stays where it is.
    Keep(u32),
    /// A vertex on a crease between two others: six of it and one of each.
    Crease { v: u32, a: u32, b: u32 },
    /// The smooth point of a vertex, moved towards its crease point by the mean of two
    /// sharpnesses, or at its crease point where that mean is one or more.
    Blend { v: u32, a: u32, b: u32, sharp: (u64, u64), edges: Vec<EdgeKey>, faces: Vec<u32> },
    /// The smooth point of a vertex, moved towards the vertex by the corner's
    /// sharpness, if there is one.
    Smooth { v: u32, edges: Vec<EdgeKey>, faces: Vec<u32>, sharpness: Option<u64> },
}

/// What a rule is.
pub enum RuleView {
    Face(u32),
    Middle(u32, u32),
    Edge { a: u32, b: u32, faces: Seq<u32>, sharpness: Option<u64> },
    Keep(u32),
    Crease { v: u32, a: u32, b: u32 },
    Blend { v: u32, a: u32, b: u32, sharp: (u64, u64), edges: Seq<EdgeKey>, faces: Seq<u32> },
    Smooth { v: u32, edges: Seq<EdgeKey>, faces: Seq<u32>, sharpness: Option<u64> },
}

impl View for PointRule {
    type V = RuleView;

    open spec fn view(&self) -> RuleView {
        match *self {
            PointRule::Face(f) => RuleView::Face(f),
            PointRule::Middle(a, b) => RuleView::Middle(a, b),
            PointRule::Edge { a, b, faces, sharpness } => RuleView::Edge {
                a,
                b,
                faces: faces@,
                sharpness,
            },
            PointRule::Keep(v) => RuleView::Keep(v),
            PointRule::Crease { v, a, b } => RuleView::Crease { v, a, b },
            PointRule::Blend { v, a, b, sharp, edges, faces } => RuleView::Blend {
                v,
                a,
                b,
                sharp,
                edges: edges@,
                faces: faces@,
            },
            PointRule::Smooth { v, edges, faces, sharpness } => RuleView::Smooth {
                v,
                edges: edges@,
                faces: faces@,
                sharpness,
            },
        }
    }
}

pub open spec fn rule_views(v: Seq<PointRule>) -> Seq<RuleView> {
    v.map_values(|r: PointRule| r@)
}

/// The sharpness, if there is one.
pub open spec fn if_sharp(s: u64) -> Option<u64> {
    if double::below(ZERO, s) {
        Some(s)
    } else {
        None
    }
}

/// The point on an edge: in its middle where it is on the boundary or fully sharp.
pub open spec fn edge_rule(c: CageView, e: EdgeKey) -> RuleView {
    let faces = faces_along(all_sides(c.faces), e);
    let sharp = edge_sharpness(c.crease_edges, e);
    if faces.len() < 2 || double::at_most(ONE, sharp) {
        RuleView::Middle(e.0, e.1)
    } else {
        RuleView::Edge { a: e.0, b: e.1, faces, sharpness: if_sharp(sharp) }
    }
}

/// The other end of an edge at `v`.
pub open spec fn other_end(e: EdgeKey, v: u32) -> u32 {
    if e.0 == v {
        e.1
    } else {
        e.0
    }
}

/// Those of the edges that lie on the boundary.
pub open spec fn boundary_edges(h: Seq<HalfEdge>, edges: Seq<EdgeKey>) -> Seq<EdgeKey>
    decreases edges.len(),
{
    if edges.len() == 0 {
        seq![]
    } else {
        let before = boundary_edges(h, edges.drop_last());
        if faces_along(h, edges.last()).len() < 2 {
            before.push(edges.last())
        } else {
            before
        }
    }
}

/// Those of the edges that are sharp.
pub open spec fn sharp_edges(creases: Seq<Crease>, edges: Seq<EdgeKey>) -> Seq<EdgeKey>
    decreases edges.len(),
{
    if edges.len() == 0 {
        seq![]
    } else {
        let before = sharp_edges(creases, edges.drop_last());
        if double::below(ZERO, edge_sharpness(creases, edges.last())) {
            before.push(edges.last())
        } else {
            before
        }
    }
}

/// The point of a vertex: pinned at full corners and where three or more creases meet,
/// along the boundary where that is interpolated, along a crease, or smooth.
pub open spec fn vertex_rule(c: CageView, v: u32) -> RuleView {
    let h = all_sides(c.faces);
    let edges = edges_at(h, v);
    let faces = faces_at(h, v);
    let rim = boundary_edges(h, edges);
    let sharp = sharp_edges(c.crease_edges, edges);
    let corner = vertex_sharpness(c.corners, v);
    if double::at_most(ONE, corner) {
        RuleView::Keep(v)
    } else if c.interpolate_boundary && rim.len() >= 2 {
        RuleView::Crease { v, a: other_end(rim[0], v), b: other_end(rim[1], v) }
    } else if sharp.len() >= 3 {
        RuleView::Keep(v)
    } else if sharp.len() == 2 {
        RuleView::Blend {
            v,
            a: other_end(sharp[0], v),
            b: other_end(sharp[1], v),
            sharp: (
                edge_sharpness(c.crease_edges, sharp[0]),
                edge_sharpness(c.crease_edges, sharp[1]),
            ),
            edges,
            faces,
        }
    } else {
        RuleView::Smooth { v, edges, faces, sharpness: if_sharp(corner) }
    }
}

/// The edges of a cage.
pub open spec fn cage_edges(c: CageView) -> Seq<EdgeKey> {
    edges_of(all_sides(c.faces))
}

/// The points of the next cage: one for each face, then one for each edge, then one for
/// each vertex.
pub open spec fn refined_rules(c: CageView) -> Seq<RuleView> {
    Seq::new(c.faces.len(), |f: int| RuleView::Face(f as u32)) + Seq::new(
        cage_edges(c).len(),
        |e: int| edge_rule(c, cage_edges(c)[e]),
    ) + Seq::new(c.positions.len(), |v: int| vertex_rule(c, v as u32))
}

/// The point on an edge.
pub open spec fn edge_point(c: CageView, e: EdgeKey) -> u32 {
    (c.faces.len() + cage_edges(c).index_of(e)) as u32
}

/// The point of a vertex.
pub open spec fn vertex_point(c: CageView, v: u32) -> u32 {
    (c.faces.len() + cage_edges(c).len() + v) as u32
}

/// The quad at a corner of a face: from the vertex over the next edge and the face to
/// the edge before.
pub open spec fn corner_quad(c: CageView, f: int, i: int) -> Seq<u32> {
    let ring = c.faces[f];
    let n = ring.len() as int;
    seq![
        vertex_point(c, ring[i]),
        edge_point(c, edge_between(ring[i], ring[(i + 1) % n])),
        f as u32,
        edge_point(c, edge_between(ring[(i + n - 1) % n], ring[i])),
    ]
}

/// The quads of the first `n` faces: one for each corner of each face that is no hole.
pub open spec fn refined_faces(c: CageView, n: int) -> Seq<Seq<u32>>
    decreases n,
{
    if n <= 0 {
        seq![]
    } else {
        let f = n - 1;
        refined_faces(c, f) + if c.holes.contains(f as u32) {
            seq![]
        } else {
            Seq::new(c.faces[f].len(), |i: int| corner_quad(c, f, i))
        }
    }
}

/// Sharpness decays by one each round; a crease goes to the two halves of its edge.
pub open spec fn refined_creases(c: CageView, creases: Seq<Crease>) -> Seq<Crease>
    decreases creases.len(),
{
    if creases.len() == 0 {
        seq![]
    } else {
        let k = creases.last();
        let e = edge_between(k.a, k.b);
        let left = double::one_less(k.sharpness);
        refined_creases(c, creases.drop_last()) + if double::at_most(k.sharpness, ONE)
            || !cage_edges(c).contains(e) {
            seq![]
        } else {
            seq![
                Crease { a: vertex_point(c, k.a), b: edge_point(c, e), sharpness: left },
                Crease { a: vertex_point(c, k.b), b: edge_point(c, e), sharpness: left },
            ]
        }
    }
}

/// Sharpness from which on it counts as infinite, and stands for it.
pub const INFINITE: u64 = 0x41cd_cd65_0000_0000;

/// Sharpness that is read as infinite.
pub const PINNED: u64 = 0x4024_0000_0000_0000;

/// Sharpness decays by one each round, unless it is infinite.
pub open spec fn refined_corners(c: CageView, corners: Seq<Corner>) -> Seq<Corner>
    decreases corners.len(),
{
    if corners.len() == 0 {
        seq![]
    } else {
        let k = corners.last();
        refined_corners(c, corners.drop_last()) + if double::below(ONE, k.sharpness) {
            seq![
                Corner {
                    vertex: vertex_point(c, k.vertex),
                    sharpness: if double::at_most(INFINITE, k.sharpness) {
                        k.sharpness
                    } else {
                        double::one_less(k.sharpness)
                    },
                },
            ]
        } else {
            seq![]
        }
    }
}

/// A round of subdivision: the rules for the points of the next cage, its faces, and
/// the sharpness that is left.
#[derive(Debug)]
pub struct Refinement {
    pub rules: Vec<PointRule>,
    pub faces: Vec<Vec<u32>>,
    pub crease_edges: Vec<Crease>,
    pub corners: Vec<Corner>,
}

/// What a round of subdivision is.
pub struct RefinementView {
    pub rules: Seq<RuleView>,
    pub faces: Seq<Seq<u32>>,
    pub crease_edges: Seq<Crease>,
    pub corners: Seq<Corner>,
}

impl View for Refinement {
    type V = RefinementView;

    open spec fn view(&self) -> RefinementView {
        RefinementView {
            rules: rule_views(self.rules@),
            faces: ring_views(self.faces@),
            crease_edges: self.crease_edges@,
            corners: self.corners@,
        }
    }
}

/// The round of subdivision of a cage.
pub open spec fn refined(c: CageView) -> RefinementView {
    RefinementView {
        rules: refined_rules(c),
        faces: refined_faces(c, c.faces.len() as int),
        crease_edges: refined_creases(c, c.crease_edges),
        corners: refined_corners(c, c.corners),
    }
}

/// The faces name vertices of the cage, and so do the corners that stay sharp; the next
/// cage's points can be numbered.
pub open spec fn is_cage(c: CageView) -> bool {
    &&& forall|f: int, i: int|
        0 <= f < c.faces.len() && 0 <= i < c.faces[f].len() ==> #[trigger] c.faces[f][i]
            < c.positions.len()
    &&& forall|k: int|
        0 <= k < c.corners.len() && double::below(ONE, (#[trigger] c.corners[k]).sharpness)
            ==> c.corners[k].vertex < c.positions.len()
    &&& c.faces.len() + all_sides(c.faces).len() + c.positions.len() <= u32::MAX
}

// ---- lemmas ----------------------------------------------------------------

/// Each edge is listed once.
pub proof fn edges_distinct(h: Seq<HalfEdge>)
    ensures
        edges_of(h).no_duplicates(),
        edges_of(h).len() <= h.len(),
        forall|k: int| 0 <= k < h.len() ==> #[trigger] edges_of(h).contains(edge_of(h[k])),
    decreases h.len(),
{
    if h.len() > 0 {
        edges_distinct(h.drop_last());
        let before = edges_of(h.drop_last());
        let all = edges_of(h);
        let e = edge_of(h.last());
        if !before.contains(e) {
            assert(all[before.len() as int] == e);
        }
        assert forall|k: int| 0 <= k < h.len() implies #[trigger] all.contains(edge_of(h[k])) by {
            if k < h.len() - 1 {
                assert(h.drop_last()[k] == h[k]);
                assert(before.contains(edge_of(h[k])));
                let j = choose|j: int| 0 <= j < before.len() && before[j] == edge_of(h[k]);
                assert(all[j] == edge_of(h[k]));
            }
        }
    }
}

proof fn no_faces_along(h: Seq<HalfEdge>, e: EdgeKey)
    requires
        !edges_of(h).contains(e),
    ensures
        faces_along(h, e) == Seq::<u32>::empty(),
    decreases h.len(),
{
    if h.len() > 0 {
        let before = edges_of(h.drop_last());
        let all = edges_of(h);
        if before.contains(e) {
            let j = choose|j: int| 0 <= j < before.len() && before[j] == e;
            assert(all[j] == e);
        }
        if edge_of(h.last()) == e {
            if !before.contains(e) {
                assert(all[before.len() as int] == e);
            }
        }
        no_faces_along(h.drop_last(), e);
    }
}

/// The edges of a cage join vertices that its faces name.
proof fn edges_join(h: Seq<HalfEdge>, e: EdgeKey)
    requires
        edges_of(h).contains(e),
    ensures
        exists|k: int| 0 <= k < h.len() && #[trigger] edge_of(h[k]) == e,
    decreases h.len(),
{
    if h.len() > 0 {
        if edge_of(h.last()) == e {
            assert(edge_of(h[h.len() - 1]) == e);
        } else {
            let before = edges_of(h.drop_last());
            let all = edges_of(h);
            let j = choose|j: int| 0 <= j < all.len() && all[j] == e;
            assert(before[j] == e);
            edges_join(h.drop_last(), e);
            let k = choose|k: int|
                0 <= k < h.drop_last().len() && #[trigger] edge_of(h.drop_last()[k]) == e;
            assert(edge_of(h[k]) == e);
        }
    }
}

/// Where the sides of a face stand among those of all.
proof fn sides_of_face(faces: Seq<Seq<u32>>, f: int, i: int)
    requires
        0 <= f < faces.len() <= u32::MAX,
        0 <= i < faces[f].len(),
    ensures
        exists|k: int|
            0 <= k < all_sides(faces).len() && #[trigger] all_sides(faces)[k] == sides(
                f as u32,
                faces[f],
            )[i],
    decreases faces.len(),
{
    let before = all_sides(faces.drop_last());
    let all = all_sides(faces);
    if f == faces.len() - 1 {
        assert(all[before.len() + i] == sides(f as u32, faces[f])[i]);
    } else {
        sides_of_face(faces.drop_last(), f, i);
        let k = choose|k: int|
            0 <= k < before.len() && #[trigger] before[k] == sides(f as u32, faces.drop_last()[f])[i];
        assert(all[k] == before[k]);
    }
}

/// The sides of a cage's faces run between its vertices.
proof fn sides_in_range(faces: Seq<Seq<u32>>, n: int)
    requires
        forall|f: int, i: int|
            0 <= f < faces.len() && 0 <= i < faces[f].len() ==> #[trigger] faces[f][i] < n,
    ensures
        forall|k: int|
            0 <= k < all_sides(faces).len() ==> (#[trigger] all_sides(faces)[k]).a < n && all_sides(
                faces,
            )[k].b < n,
    decreases faces.len(),
{
    if faces.len() > 0 {
        let rest = faces.drop_last();
        assert forall|f: int, i: int|
            0 <= f < rest.len() && 0 <= i < rest[f].len() implies #[trigger] rest[f][i] < n by {
            assert(faces[f][i] < n);
        }
        sides_in_range(rest, n);
        let before = all_sides(rest);
        let all = all_sides(faces);
        let ring = faces.last();
        assert forall|k: int| 0 <= k < all.len() implies (#[trigger] all[k]).a < n && all[k].b
            < n by {
            if k < before.len() {
                assert(all[k] == before[k]);
            } else {
                let i = k - before.len();
                assert(faces[faces.len() - 1][i] < n);
                let j = (i + 1) % (ring.len() as int);
                assert(0 <= j < ring.len());
                assert(faces[faces.len() - 1][j] < n);
            }
        }
    }
}

/// The corners beside a corner of a ring.
proof fn ring_neighbours(i: int, n: int)
    requires
        0 <= i < n,
    ensures
        (i + 1) % n == if i + 1 < n {
            i + 1
        } else {
            0
        },
        (i + n - 1) % n == if i > 0 {
            i - 1
        } else {
            n - 1
        },
{
    if i + 1 < n {
        vstd::arithmetic::div_mod::lemma_small_mod((i + 1) as nat, n as nat);
    } else {
        vstd::arithmetic::div_mod::lemma_mod_self_0(n);
    }
    if i > 0 {
        vstd::arithmetic::div_mod::lemma_mod_add_multiples_vanish(i - 1, n);
        vstd::arithmetic::div_mod::lemma_small_mod((i - 1) as nat, n as nat);
    } else {
        vstd::arithmetic::div_mod::lemma_small_mod((n - 1) as nat, n as nat);
    }
}

// ---- topology --------------------------------------------------------------

/// A number for each edge.
spec fn code_of(e: EdgeKey) -> u64 {
    (e.0 as int * 0x1_0000_0000 + e.1 as int) as u64
}

fn code(e: EdgeKey) -> (r: u64)
    ensures
        r == code_of(e),
{
    e.0 as u64 * 0x1_0000_0000 + e.1 as u64
}

/// Where each edge stands in a list.
spec fn is_index(edges: Seq<EdgeKey>, index: Map<u64, usize>) -> bool {
    &&& forall|e: EdgeKey| #[trigger] index.contains_key(code_of(e)) <==> edges.contains(e)
    &&& forall|e: EdgeKey|
        edges.contains(e) ==> (#[trigger] index[code_of(e)]) < edges.len() && edges[index[code_of(
            e,
        )] as int] == e
}

/// The sides of a cage's faces, its edges, and what lies along or around what.
struct Topology {
    sides: Vec<HalfEdge>,
    edges: Vec<EdgeKey>,
    index: HashMap<u64, usize>,
    /// Faces along each edge.
    along: Vec<Vec<u32>>,
    /// Edges at each vertex.
    at: Vec<Vec<EdgeKey>>,
    /// Faces at each vertex.
    around: Vec<Vec<u32>>,
}

impl Topology {
    /// The topology of the first `n` sides, with `count` vertices.
    spec fn covers(&self, n: int, count: int) -> bool {
        let h = self.sides@.take(n);
        &&& self.edges@ == edges_of(h)
        &&& is_index(self.edges@, self.index@)
        &&& self.along@.len() == self.edges@.len()
        &&& forall|i: int|
            0 <= i < self.edges@.len() ==> (#[trigger] self.along@[i])@ == faces_along(
                h,
                self.edges@[i],
            )
        &&& self.at@.len() == count
        &&& forall|v: int| 0 <= v < count ==> (#[trigger] self.at@[v])@ == edges_at(h, v as u32)
        &&& self.around@.len() == count
        &&& forall|v: int| 0 <= v < count ==> (#[trigger] self.around@[v])@ == faces_at(h, v as u32)
    }
}

/// The sides of all faces.
fn list_sides(faces: &Vec<Vec<u32>>) -> (r: Vec<HalfEdge>)
    requires
        faces@.len() <= u32::MAX,
    ensures
        r@ == all_sides(ring_views(faces@)),
{
    let ghost rings = ring_views(faces@);
    let n: usize = faces.len();
    let mut out: Vec<HalfEdge> = Vec::new();
    let mut f: usize = 0;
    assert(rings.take(0) =~= seq![]);
    while f < n
        invariant
            f <= n == faces@.len() <= u32::MAX,
            rings == ring_views(faces@),
            out@ == all_sides(rings.take(f as int)),
        decreases n - f,
    {
        let ring: &Vec<u32> = &faces[f];
        let m: usize = ring.len();
        let ghost before = out@;
        let mut i: usize = 0;
        while i < m
            invariant
                i <= m == ring@.len(),
                f < n <= u32::MAX,
                out@ == before + sides(f as u32, ring@).take(i as int),
            decreases m - i,
        {
            let next: usize = if i + 1 < m {
                i + 1
            } else {
                0
            };
            proof {
                ring_neighbours(i as int, m as int);
            }
            out.push(HalfEdge { face: f as u32, a: ring[i], b: ring[next] });
            i += 1;
            assert(out@ =~= before + sides(f as u32, ring@).take(i as int));
        }
        proof {
            assert(sides(f as u32, ring@).take(m as int) =~= sides(f as u32, ring@));
            assert(rings.take(f + 1).drop_last() =~= rings.take(f as int));
            assert(rings.take(f + 1).last() == ring@);
        }
        f += 1;
    }
    assert(rings.take(n as int) =~= rings);
    out
}

fn has_edge(v: &Vec<EdgeKey>, e: EdgeKey) -> (r: bool)
    ensures
        r == v@.contains(e),
{
    let n: usize = v.len();
    let mut i: usize = 0;
    while i < n
        invariant
            i <= n == v@.len(),
            forall|j: int| 0 <= j < i ==> v@[j] != e,
        decreases n - i,
    {
        if v[i] == e {
            return true;
        }
        i += 1;
    }
    false
}

fn has_id(v: &Vec<u32>, f: u32) -> (r: bool)
    ensures
        r == v@.contains(f),
{
    let n: usize = v.len();
    let mut i: usize = 0;
    while i < n
        invariant
            i <= n == v@.len(),
            forall|j: int| 0 <= j < i ==> v@[j] != f,
        decreases n - i,
    {
        if v[i] == f {
            return true;
        }
        i += 1;
    }
    false
}

/// Adds a side at one of its ends, if the edge is not yet there.
fn add_at(at: &mut Vec<Vec<EdgeKey>>, v: u32, e: EdgeKey)
    requires
        v < old(at)@.len(),
    ensures
        final(at)@.len() == old(at)@.len(),
        forall|w: int|
            0 <= w < old(at)@.len() && w != v ==> #[trigger] final(at)@[w] == old(at)@[w],
        final(at)@[v as int]@ == if old(at)@[v as int]@.contains(e) {
            old(at)@[v as int]@
        } else {
            old(at)@[v as int]@.push(e)
        },
{
    if !has_edge(&at[v as usize], e) {
        at[v as usize].push(e);
    }
}

proof fn codes_differ(a: EdgeKey, b: EdgeKey)
    requires
        code_of(a) == code_of(b),
    ensures
        a == b,
{
}

fn build_topology(faces: &Vec<Vec<u32>>, count: usize) -> (r: Topology)
    requires
        faces@.len() <= u32::MAX,
        count <= u32::MAX,
        forall|f: int, i: int|
            0 <= f < faces@.len() && 0 <= i < faces@[f]@.len() ==> #[trigger] faces@[f]@[i] < count,
    ensures
        r.sides@ == all_sides(ring_views(faces@)),
        r.covers(r.sides@.len() as int, count as int),
{
    broadcast use vstd::std_specs::hash::group_hash_axioms;

    let sides: Vec<HalfEdge> = list_sides(faces);
    proof {
        let rings = ring_views(faces@);
        assert forall|f: int, i: int|
            0 <= f < rings.len() && 0 <= i < rings[f].len() implies #[trigger] rings[f][i]
            < count by {
            assert(faces@[f]@[i] < count);
        }
        sides_in_range(rings, count as int);
    }
    let mut at: Vec<Vec<EdgeKey>> = Vec::new();
    let mut around: Vec<Vec<u32>> = Vec::new();
    let mut v: usize = 0;
    while v < count
        invariant
            v <= count,
            at@.len() == v,
            around@.len() == v,
            forall|w: int| 0 <= w < v ==> (#[trigger] at@[w])@ == Seq::<EdgeKey>::empty(),
            forall|w: int| 0 <= w < v ==> (#[trigger] around@[w])@ == Seq::<u32>::empty(),
        decreases count - v,
    {
        at.push(Vec::new());
        around.push(Vec::new());
        v += 1;
    }
    let mut t: Topology = Topology {
        sides,
        edges: Vec::new(),
        index: HashMap::new(),
        along: Vec::new(),
        at,
        around,
    };
    let n: usize = t.sides.len();
    let mut k: usize = 0;
    proof {
        assert(t.sides@.take(0) =~= seq![]);
        assert(t.edges@ =~= seq![]);
    }
    while k < n
        invariant
            k <= n == t.sides@.len(),
            count <= u32::MAX,
            t.sides@ == all_sides(ring_views(faces@)),
            forall|k: int|
                0 <= k < t.sides@.len() ==> (#[trigger] t.sides@[k]).a < count && t.sides@[k].b
                    < count,
            t.covers(k as int, count as int),
        decreases n - k,
    {
        broadcast use vstd::std_specs::hash::group_hash_axioms;

        let s: HalfEdge = t.sides[k];
        let e: EdgeKey = EdgeKey::new(s.a, s.b);
        let c: u64 = code(e);
        let ghost old_t = t;
        let ghost h = t.sides@.take(k as int);
        let ghost more = t.sides@.take(k + 1);
        proof {
            assert(more.drop_last() =~= h);
            assert(more.last() == s);
            edges_distinct(h);
            assert(old_t.index@.contains_key(code_of(e)) <==> old_t.edges@.contains(e));
        }
        let found: Option<usize> = match t.index.get(&c) {
            Some(i) => Some(*i),
            None => None,
        };
        match found {
            Some(i) => {
                proof {
                    assert(old_t.edges@.contains(e));
                    assert(old_t.index@[code_of(e)] < old_t.edges@.len());
                }
                t.along[i].push(s.face);
            },
            None => {
                let i: usize = t.edges.len();
                t.index.insert(c, i);
                t.edges.push(e);
                let mut one: Vec<u32> = Vec::new();
                one.push(s.face);
                t.along.push(one);
                proof {
                    no_faces_along(h, e);
                    assert(one@ =~= faces_along(more, e));
                }
            },
        }
        proof {
            assert(t.edges@ == edges_of(more));
            edges_distinct(more);
            assert forall|g: EdgeKey| #[trigger]
                t.index@.contains_key(code_of(g)) <==> t.edges@.contains(g) by {
                if found is None {
                    if g == e {
                        assert(t.edges@[old_t.edges@.len() as int] == g);
                    } else {
                        if code_of(g) == code_of(e) {
                            codes_differ(g, e);
                        }
                        assert(old_t.index@.contains_key(code_of(g)) <==> old_t.edges@.contains(g));
                        if old_t.edges@.contains(g) {
                            let j = choose|j: int|
                                0 <= j < old_t.edges@.len() && old_t.edges@[j] == g;
                            assert(t.edges@[j] == g);
                        }
                    }
                }
            }
            assert forall|g: EdgeKey| t.edges@.contains(g) implies (#[trigger] t.index@[code_of(
                g,
            )]) < t.edges@.len() && t.edges@[t.index@[code_of(g)] as int] == g by {
                if found is None && g != e {
                    if code_of(g) == code_of(e) {
                        codes_differ(g, e);
                    }
                    let j = choose|j: int| 0 <= j < t.edges@.len() && t.edges@[j] == g;
                    assert(old_t.edges@[j] == g);
                    assert(old_t.edges@.contains(g));
                    assert(old_t.index@[code_of(g)] < old_t.edges@.len());
                } else if found is Some {
                    assert(old_t.index@[code_of(g)] < old_t.edges@.len());
                }
            }
            assert forall|i: int| 0 <= i < t.edges@.len() implies (#[trigger] t.along@[i])@
                == faces_along(more, t.edges@[i]) by {
                if i < old_t.edges@.len() {
                    assert(old_t.along@[i]@ == faces_along(h, old_t.edges@[i]));
                }
            }
        }
        add_at(&mut t.at, s.a, e);
        let ghost mid = t.at@;
        add_at(&mut t.at, s.b, e);
        if !has_id(&t.around[s.a as usize], s.face) {
            t.around[s.a as usize].push(s.face);
        }
        proof {
            assert forall|w: int| 0 <= w < count implies (#[trigger] t.at@[w])@ == edges_at(
                more,
                w as u32,
            ) by {
                assert(old_t.at@[w]@ == edges_at(h, w as u32));
                if w == s.a {
                    assert(mid[w]@ == edges_at(more, w as u32));
                    if s.a == s.b {
                        let before = edges_at(h, w as u32);
                        if !before.contains(e) {
                            assert(before.push(e)[before.len() as int] == e);
                        }
                        assert(mid[w]@.contains(e));
                    }
                }
            }
            assert forall|w: int| 0 <= w < count implies (#[trigger] t.around@[w])@ == faces_at(
                more,
                w as u32,
            ) by {
                assert(old_t.around@[w]@ == faces_at(h, w as u32));
            }
        }
        k += 1;
    }
    assert(t.sides@.take(n as int) =~= t.sides@);
    t
}

// ---- one round -------------------------------------------------------------

/// The sharpness of each edge of a list.
fn list_edge_sharpness(t: &Topology, creases: &Vec<Crease>, Ghost(count): Ghost<int>) -> (r: Vec<u64>)
    requires
        t.covers(t.sides@.len() as int, count),
    ensures
        r@.len() == t.edges@.len(),
        forall|i: int|
            0 <= i < r@.len() ==> #[trigger] r@[i] == edge_sharpness(creases@, t.edges@[i]),
{
    broadcast use vstd::std_specs::hash::group_hash_axioms;

    let m: usize = t.edges.len();
    let mut out: Vec<u64> = Vec::new();
    let mut j: usize = 0;
    while j < m
        invariant
            j <= m,
            out@.len() == j,
            forall|i: int| 0 <= i < j ==> #[trigger] out@[i] == ZERO,
        decreases m - j,
    {
        out.push(ZERO);
        j += 1;
    }
    let n: usize = creases.len();
    let mut k: usize = 0;
    assert(creases@.take(0) =~= seq![]);
    proof {
        assert(t.sides@.take(t.sides@.len() as int) =~= t.sides@);
        edges_distinct(t.sides@);
    }
    while k < n
        invariant
            k <= n == creases@.len(),
            out@.len() == t.edges@.len(),
            t.edges@.no_duplicates(),
            is_index(t.edges@, t.index@),
            forall|i: int|
                0 <= i < out@.len() ==> #[trigger] out@[i] == edge_sharpness(
                    creases@.take(k as int),
                    t.edges@[i],
                ),
        decreases n - k,
    {
        broadcast use vstd::std_specs::hash::group_hash_axioms;

        let c: Crease = creases[k];
        let e: EdgeKey = EdgeKey::new(c.a, c.b);
        let ghost before = out@;
        proof {
            assert(creases@.take(k + 1).drop_last() =~= creases@.take(k as int));
            assert(t.index@.contains_key(code_of(e)) <==> t.edges@.contains(e));
        }
        match t.index.get(&code(e)) {
            Some(i) => {
                let i: usize = *i;
                proof {
                    assert(t.edges@.contains(e));
                    assert(t.index@[code_of(e)] < t.edges@.len());
                }
                out.set(i, double::larger_of(c.sharpness, ZERO));
            },
            None => {},
        }
        proof {
            assert forall|i: int| 0 <= i < out@.len() implies #[trigger] out@[i] == edge_sharpness(
                creases@.take(k + 1),
                t.edges@[i],
            ) by {
                assert(before[i] == edge_sharpness(creases@.take(k as int), t.edges@[i]));
                if t.edges@[i] == e {
                    assert(t.edges@.contains(e));
                }
            }
        }
        k += 1;
    }
    assert(creases@.take(n as int) =~= creases@);
    out
}

/// The sharpness of each vertex.
fn list_vertex_sharpness(corners: &Vec<Corner>, count: usize) -> (r: Vec<u64>)
    requires
        count <= u32::MAX,
    ensures
        r@.len() == count,
        forall|v: int|
            0 <= v < count ==> #[trigger] r@[v] == vertex_sharpness(corners@, v as u32),
{
    let mut out: Vec<u64> = Vec::new();
    let mut j: usize = 0;
    while j < count
        invariant
            j <= count,
            out@.len() == j,
            forall|i: int| 0 <= i < j ==> #[trigger] out@[i] == ZERO,
        decreases count - j,
    {
        out.push(ZERO);
        j += 1;
    }
    let n: usize = corners.len();
    let mut k: usize = 0;
    assert(corners@.take(0) =~= seq![]);
    while k < n
        invariant
            k <= n == corners@.len(),
            out@.len() == count <= u32::MAX,
            forall|v: int|
                0 <= v < count ==> #[trigger] out@[v] == vertex_sharpness(
                    corners@.take(k as int),
                    v as u32,
                ),
        decreases n - k,
    {
        let c: Corner = corners[k];
        assert(corners@.take(k + 1).drop_last() =~= corners@.take(k as int));
        if (c.vertex as usize) < count {
            out.set(c.vertex as usize, double::larger_of(c.sharpness, ZERO));
        }
        k += 1;
    }
    assert(corners@.take(n as int) =~= corners@);
    out
}

/// The faces that are holes.
fn list_holes(holes: &Vec<u32>, count: usize) -> (r: Vec<bool>)
    requires
        count <= u32::MAX,
    ensures
        r@.len() == count,
        forall|f: int| 0 <= f < count ==> #[trigger] r@[f] == holes@.contains(f as u32),
{
    let mut out: Vec<bool> = Vec::new();
    let mut j: usize = 0;
    while j < count
        invariant
            j <= count,
            out@.len() == j,
            forall|i: int| 0 <= i < j ==> #[trigger] out@[i] == false,
        decreases count - j,
    {
        out.push(false);
        j += 1;
    }
    let n: usize = holes.len();
    let mut k: usize = 0;
    while k < n
        invariant
            k <= n == holes@.len(),
            out@.len() == count <= u32::MAX,
            forall|f: int|
                0 <= f < count ==> #[trigger] out@[f] == holes@.take(k as int).contains(f as u32),
        decreases n - k,
    {
        let h: u32 = holes[k];
        let ghost before = out@;
        if (h as usize) < count {
            out.set(h as usize, true);
        }
        proof {
            let now = holes@.take(k + 1);
            let was = holes@.take(k as int);
            assert forall|f: int| 0 <= f < count implies #[trigger] out@[f] == now.contains(
                f as u32,
            ) by {
                assert(before[f] == was.contains(f as u32));
                if was.contains(f as u32) {
                    let j = choose|j: int| 0 <= j < was.len() && was[j] == f as u32;
                    assert(now[j] == f as u32);
                }
                if h == f {
                    assert(now[k as int] == f as u32);
                }
                if now.contains(f as u32) && h != f {
                    let j = choose|j: int| 0 <= j < now.len() && now[j] == f as u32;
                    assert(was[j] == f as u32);
                }
            }
        }
        k += 1;
    }
    assert(holes@.take(n as int) =~= holes@);
    out
}

fn copy_ids(v: &Vec<u32>) -> (r: Vec<u32>)
    ensures
        r@ == v@,
{
    let n: usize = v.len();
    let mut out: Vec<u32> = Vec::new();
    let mut i: usize = 0;
    while i < n
        invariant
            i <= n == v@.len(),
            out@ == v@.take(i as int),
        decreases n - i,
    {
        out.push(v[i]);
        i += 1;
        assert(out@ =~= v@.take(i as int));
    }
    assert(v@.take(n as int) =~= v@);
    out
}

fn copy_edges(v: &Vec<EdgeKey>) -> (r: Vec<EdgeKey>)
    ensures
        r@ == v@,
{
    let n: usize = v.len();
    let mut out: Vec<EdgeKey> = Vec::new();
    let mut i: usize = 0;
    while i < n
        invariant
            i <= n == v@.len(),
            out@ == v@.take(i as int),
        decreases n - i,
    {
        out.push(v[i]);
        i += 1;
        assert(out@ =~= v@.take(i as int));
    }
    assert(v@.take(n as int) =~= v@);
    out
}

fn sharp_or_none(s: u64) -> (r: Option<u64>)
    ensures
        r == if_sharp(s),
{
    if double::less(ZERO, s) {
        Some(s)
    } else {
        None
    }
}

fn far_end(e: EdgeKey, v: u32) -> (r: u32)
    ensures
        r == other_end(e, v),
{
    if e.0 == v {
        e.1
    } else {
        e.0
    }
}

/// A cage with its topology and the sharpness of its edges and vertices.
struct Round<'a> {
    cage: &'a SubdivCage,
    topology: Topology,
    edge_sharp: Vec<u64>,
    vertex_sharp: Vec<u64>,
}

impl<'a> Round<'a> {
    spec fn is_ready(&self) -> bool {
        let c = self.cage@;
        let t = self.topology;
        &&& is_cage(c)
        &&& t.sides@ == all_sides(c.faces)
        &&& t.covers(t.sides@.len() as int, c.positions.len() as int)
        &&& self.edge_sharp@.len() == t.edges@.len()
        &&& forall|i: int|
            0 <= i < self.edge_sharp@.len() ==> #[trigger] self.edge_sharp@[i] == edge_sharpness(
                c.crease_edges,
                t.edges@[i],
            )
        &&& self.vertex_sharp@.len() == c.positions.len()
        &&& forall|v: int|
            0 <= v < c.positions.len() ==> #[trigger] self.vertex_sharp@[v] == vertex_sharpness(
                c.corners,
                v as u32,
            )
    }

    proof fn topology_is_whole(&self)
        requires
            self.is_ready(),
        ensures
            self.topology.sides@.take(self.topology.sides@.len() as int) == self.topology.sides@,
            self.topology.edges@ == cage_edges(self.cage@),
            self.topology.edges@.no_duplicates(),
            self.topology.edges@.len() <= all_sides(self.cage@.faces).len(),
    {
        assert(self.topology.sides@.take(self.topology.sides@.len() as int)
            =~= self.topology.sides@);
        edges_distinct(self.topology.sides@);
    }

    /// Where an edge stands.
    fn find_edge(&self, e: EdgeKey) -> (r: Option<usize>)
        requires
            self.is_ready(),
        ensures
            r is Some <==> cage_edges(self.cage@).contains(e),
            r matches Some(i) ==> i < self.topology.edges@.len() && self.topology.edges@[i as int]
                == e && i == cage_edges(self.cage@).index_of(e),
    {
        broadcast use vstd::std_specs::hash::group_hash_axioms;

        proof {
            self.topology_is_whole();
            assert(self.topology.index@.contains_key(code_of(e)) <==> self.topology.edges@.contains(
                e,
            ));
        }
        match self.topology.index.get(&code(e)) {
            Some(i) => {
                let i: usize = *i;
                proof {
                    let edges = self.topology.edges@;
                    assert(edges.contains(e));
                    assert(self.topology.index@[code_of(e)] < edges.len());
                    assert(edges[i as int] == e);
                    let j = edges.index_of(e);
                    assert(edges[j] == e);
                    assert(i == j);
                }
                Some(i)
            },
            None => None,
        }
    }

    /// The rule for the point on an edge.
    fn rule_for_edge(&self, i: usize) -> (r: PointRule)
        requires
            self.is_ready(),
            i < self.topology.edges@.len(),
        ensures
            r@ == edge_rule(self.cage@, cage_edges(self.cage@)[i as int]),
    {
        proof {
            self.topology_is_whole();
        }
        let e: EdgeKey = self.topology.edges[i];
        let faces: &Vec<u32> = &self.topology.along[i];
        let sharp: u64 = self.edge_sharp[i];
        assert(faces@ == faces_along(all_sides(self.cage@.faces), e));
        if faces.len() < 2 || double::less_or_equal(ONE, sharp) {
            PointRule::Middle(e.0, e.1)
        } else {
            PointRule::Edge {
                a: e.0,
                b: e.1,
                faces: copy_ids(faces),
                sharpness: sharp_or_none(sharp),
            }
        }
    }

    /// The rule for the point of a vertex.
    fn rule_for_vertex(&self, v: u32) -> (r: PointRule)
        requires
            self.is_ready(),
            v < self.cage@.positions.len(),
        ensures
            r@ == vertex_rule(self.cage@, v),
    {
        let ghost h = all_sides(self.cage@.faces);
        let ghost creases = self.cage@.crease_edges;
        proof {
            self.topology_is_whole();
        }
        let edges: &Vec<EdgeKey> = &self.topology.at[v as usize];
        let faces: &Vec<u32> = &self.topology.around[v as usize];
        assert(edges@ == edges_at(h, v));
        assert(faces@ == faces_at(h, v));
        let n: usize = edges.len();
        let mut rim: Vec<EdgeKey> = Vec::new();
        let mut sharp: Vec<(EdgeKey, u64)> = Vec::new();
        let mut k: usize = 0;
        proof {
            assert(edges@.take(0) =~= seq![]);
        }
        while k < n
            invariant
                self.is_ready(),
                h == all_sides(self.cage@.faces),
                creases == self.cage@.crease_edges,
                edges@ == edges_at(h, v),
                k <= n == edges@.len(),
                rim@ == boundary_edges(h, edges@.take(k as int)),
                sharp@.len() == sharp_edges(creases, edges@.take(k as int)).len(),
                forall|j: int|
                    0 <= j < sharp@.len() ==> (#[trigger] sharp@[j]).0 == sharp_edges(
                        creases,
                        edges@.take(k as int),
                    )[j] && sharp@[j].1 == edge_sharpness(creases, sharp@[j].0),
            decreases n - k,
        {
            let e: EdgeKey = edges[k];
            proof {
                assert(edges@.take(k + 1).drop_last() =~= edges@.take(k as int));
                self.topology_is_whole();
                edge_at_is_listed(h, v, k as int);
            }
            let i: usize = self.find_edge(e).unwrap();
            assert(self.topology.along@[i as int]@ == faces_along(h, e));
            if self.topology.along[i].len() < 2 {
                rim.push(e);
            }
            let s: u64 = self.edge_sharp[i];
            if double::less(ZERO, s) {
                sharp.push((e, s));
            }
            k += 1;
        }
        assert(edges@.take(n as int) =~= edges@);
        let corner: u64 = self.vertex_sharp[v as usize];
        if double::less_or_equal(ONE, corner) {
            PointRule::Keep(v)
        } else if self.cage.interpolate_boundary && rim.len() >= 2 {
            PointRule::Crease { v, a: far_end(rim[0], v), b: far_end(rim[1], v) }
        } else if sharp.len() >= 3 {
            PointRule::Keep(v)
        } else if sharp.len() == 2 {
            PointRule::Blend {
                v,
                a: far_end(sharp[0].0, v),
                b: far_end(sharp[1].0, v),
                sharp: (sharp[0].1, sharp[1].1),
                edges: copy_edges(edges),
                faces: copy_ids(faces),
            }
        } else {
            PointRule::Smooth {
                v,
                edges: copy_edges(edges),
                faces: copy_ids(faces),
                sharpness: sharp_or_none(corner),
            }
        }
    }
}

/// An edge at a vertex is one of all edges.
proof fn edge_at_is_listed(h: Seq<HalfEdge>, v: u32, k: int)
    requires
        0 <= k < edges_at(h, v).len(),
    ensures
        edges_of(h).contains(edges_at(h, v)[k]),
    decreases h.len(),
{
    let before = edges_at(h.drop_last(), v);
    edges_distinct(h);
    if k < before.len() {
        edge_at_is_listed(h.drop_last(), v, k);
        let e = before[k];
        let was = edges_of(h.drop_last());
        let j = choose|j: int| 0 <= j < was.len() && was[j] == e;
        assert(edges_of(h)[j] == e);
    } else {
        assert(edge_of(h[h.len() - 1]) == edges_at(h, v)[k]);
    }
}

impl<'a> Round<'a> {
    /// The quads of a face, one for each corner.
    fn push_quads(&self, f: usize, out: &mut Vec<Vec<u32>>)
        requires
            self.is_ready(),
            f < self.cage.faces@.len(),
        ensures
            ring_views(final(out)@) == ring_views(old(out)@) + Seq::new(
                self.cage@.faces[f as int].len(),
                |i: int| corner_quad(self.cage@, f as int, i),
            ),
    {
        let ghost c = self.cage@;
        let ring: &Vec<u32> = &self.cage.faces[f];
        let n: usize = ring.len();
        let ghost before = ring_views(out@);
        let ghost quads = Seq::new(c.faces[f as int].len(), |i: int| corner_quad(c, f as int, i));
        let faces: usize = self.cage.faces.len();
        let edges: usize = self.topology.edges.len();
        let ghost h = all_sides(c.faces);
        proof {
            self.topology_is_whole();
            edges_distinct(h);
            assert(c.faces[f as int] == ring@);
        }
        let mut i: usize = 0;
        assert(before + quads.take(0) =~= before);
        while i < n
            invariant
                self.is_ready(),
                c == self.cage@,
                h == all_sides(c.faces),
                f < self.cage.faces@.len(),
                c.faces[f as int] == ring@,
                i <= n == ring@.len(),
                faces == c.faces.len(),
                edges == cage_edges(c).len(),
                edges <= h.len(),
                forall|k: int| 0 <= k < h.len() ==> #[trigger] cage_edges(c).contains(edge_of(h[k])),
                quads == Seq::new(c.faces[f as int].len(), |i: int| corner_quad(c, f as int, i)),
                ring_views(out@) == before + quads.take(i as int),
            decreases n - i,
        {
            let next: usize = if i + 1 < n {
                i + 1
            } else {
                0
            };
            let prev: usize = if i > 0 {
                i - 1
            } else {
                n - 1
            };
            proof {
                ring_neighbours(i as int, n as int);
                ring_neighbours(prev as int, n as int);
                sides_of_face(c.faces, f as int, i as int);
                sides_of_face(c.faces, f as int, prev as int);
                let k = choose|k: int|
                    0 <= k < h.len() && #[trigger] h[k] == sides(f as u32, c.faces[f as int])[i as int];
                assert(edge_of(h[k]) == edge_between(ring@[i as int], ring@[next as int]));
                let l = choose|l: int|
                    0 <= l < h.len() && #[trigger] h[l] == sides(
                        f as u32,
                        c.faces[f as int],
                    )[prev as int];
                assert(edge_of(h[l]) == edge_between(ring@[prev as int], ring@[i as int]));
                assert(cage_edges(c).contains(edge_of(h[k])));
                assert(cage_edges(c).contains(edge_of(h[l])));
                assert(c.faces[f as int][i as int] < c.positions.len());
            }
            let e_next: usize = self.find_edge(EdgeKey::new(ring[i], ring[next])).unwrap();
            let e_prev: usize = self.find_edge(EdgeKey::new(ring[prev], ring[i])).unwrap();
            let v: usize = ring[i] as usize;
            proof {
                self.topology_is_whole();
            }
            let quad: Vec<u32> = vec![
                (faces + edges + v) as u32,
                (faces + e_next) as u32,
                f as u32,
                (faces + e_prev) as u32,
            ];
            assert(quad@ =~= corner_quad(c, f as int, i as int));
            proof {
                assert(quads[i as int] == corner_quad(c, f as int, i as int));
                assert(quads.take(i + 1) =~= quads.take(i as int).push(quad@));
                assert(ring_views(out@.push(quad)) =~= ring_views(out@).push(quad@));
                assert((before + quads.take(i as int)).push(quad@) =~= before + quads.take(i + 1));
            }
            out.push(quad);
            i += 1;
        }
        assert(quads.take(n as int) =~= quads);
    }

    /// The creases that are left.
    fn list_creases(&self) -> (r: Vec<Crease>)
        requires
            self.is_ready(),
        ensures
            r@ == refined_creases(self.cage@, self.cage@.crease_edges),
    {
        let ghost c = self.cage@;
        let creases: &Vec<Crease> = &self.cage.crease_edges;
        let n: usize = creases.len();
        let faces: usize = self.cage.faces.len();
        let edges: usize = self.topology.edges.len();
        let mut out: Vec<Crease> = Vec::new();
        let mut k: usize = 0;
        proof {
            assert(creases@.take(0) =~= seq![]);
            self.topology_is_whole();
            sides_in_range(c.faces, c.positions.len() as int);
        }
        while k < n
            invariant
                self.is_ready(),
                c == self.cage@,
                creases@ == c.crease_edges,
                k <= n == creases@.len(),
                faces == c.faces.len(),
                edges == cage_edges(c).len(),
                forall|k: int|
                    0 <= k < all_sides(c.faces).len() ==> (#[trigger] all_sides(c.faces)[k]).a
                        < c.positions.len() && all_sides(c.faces)[k].b < c.positions.len(),
                out@ == refined_creases(c, creases@.take(k as int)),
            decreases n - k,
        {
            let s: Crease = creases[k];
            let e: EdgeKey = EdgeKey::new(s.a, s.b);
            proof {
                assert(creases@.take(k + 1).drop_last() =~= creases@.take(k as int));
                self.topology_is_whole();
            }
            if !double::less_or_equal(s.sharpness, ONE) {
                if let Some(i) = self.find_edge(e) {
                    proof {
                        edges_join(all_sides(c.faces), e);
                    }
                    let left: u64 = double::subtract_one(s.sharpness);
                    let ep: u32 = (faces + i) as u32;
                    let va: u32 = (faces + edges + s.a as usize) as u32;
                    let vb: u32 = (faces + edges + s.b as usize) as u32;
                    out.push(Crease { a: va, b: ep, sharpness: left });
                    out.push(Crease { a: vb, b: ep, sharpness: left });
                }
            }
            k += 1;
            assert(out@ =~= refined_creases(c, creases@.take(k as int)));
        }
        assert(creases@.take(n as int) =~= creases@);
        out
    }

    /// The corners that are left.
    fn list_corners(&self) -> (r: Vec<Corner>)
        requires
            self.is_ready(),
        ensures
            r@ == refined_corners(self.cage@, self.cage@.corners),
    {
        let ghost c = self.cage@;
        let corners: &Vec<Corner> = &self.cage.corners;
        let n: usize = corners.len();
        let faces: usize = self.cage.faces.len();
        let edges: usize = self.topology.edges.len();
        let mut out: Vec<Corner> = Vec::new();
        let mut k: usize = 0;
        proof {
            assert(corners@.take(0) =~= seq![]);
            self.topology_is_whole();
        }
        while k < n
            invariant
                self.is_ready(),
                c == self.cage@,
                corners@ == c.corners,
                k <= n == corners@.len(),
                faces == c.faces.len(),
                edges == cage_edges(c).len(),
                edges <= all_sides(c.faces).len(),
                out@ == refined_corners(c, corners@.take(k as int)),
            decreases n - k,
        {
            let s: Corner = corners[k];
            proof {
                assert(corners@.take(k + 1).drop_last() =~= corners@.take(k as int));
                assert(c.corners[k as int] == s);
            }
            if double::less(ONE, s.sharpness) {
                let left: u64 = if double::less_or_equal(INFINITE, s.sharpness) {
                    s.sharpness
                } else {
                    double::subtract_one(s.sharpness)
                };
                let vertex: u32 = (faces + edges + s.vertex as usize) as u32;
                out.push(Corner { vertex, sharpness: left });
            }
            k += 1;
            assert(out@ =~= refined_corners(c, corners@.take(k as int)));
        }
        assert(corners@.take(n as int) =~= corners@);
        out
    }

    /// The rules for all points.
    fn list_rules(&self) -> (r: Vec<PointRule>)
        requires
            self.is_ready(),
        ensures
            rule_views(r@) == refined_rules(self.cage@),
    {
        let ghost c = self.cage@;
        let ghost all = refined_rules(c);
        let faces: usize = self.cage.faces.len();
        let edges: usize = self.topology.edges.len();
        let vertices: usize = self.cage.positions.len();
        let mut out: Vec<PointRule> = Vec::new();
        proof {
            assert(rule_views(out@) =~= all.take(0));
            self.topology_is_whole();
        }
        let mut f: usize = 0;
        while f < faces
            invariant
                f <= faces == c.faces.len(),
                all == refined_rules(c),
                faces <= u32::MAX,
                rule_views(out@) == all.take(f as int),
            decreases faces - f,
        {
            let rule: PointRule = PointRule::Face(f as u32);
            proof {
                assert(all[f as int] == rule@);
                assert(all.take(f + 1) =~= all.take(f as int).push(rule@));
                assert(rule_views(out@.push(rule)) =~= rule_views(out@).push(rule@));
            }
            out.push(rule);
            f += 1;
        }
        let mut e: usize = 0;
        while e < edges
            invariant
                self.is_ready(),
                c == self.cage@,
                e <= edges == cage_edges(c).len(),
                edges == self.topology.edges@.len(),
                faces == c.faces.len(),
                all == refined_rules(c),
                rule_views(out@) == all.take(faces + e),
            decreases edges - e,
        {
            let rule: PointRule = self.rule_for_edge(e);
            proof {
                assert(all[faces + e] == rule@);
                assert(all.take(faces + e + 1) =~= all.take(faces + e).push(rule@));
                assert(rule_views(out@.push(rule)) =~= rule_views(out@).push(rule@));
            }
            out.push(rule);
            e += 1;
        }
        let mut v: usize = 0;
        while v < vertices
            invariant
                self.is_ready(),
                c == self.cage@,
                v <= vertices == c.positions.len(),
                edges == cage_edges(c).len(),
                faces == c.faces.len(),
                all == refined_rules(c),
                rule_views(out@) == all.take(faces + edges + v),
            decreases vertices - v,
        {
            let rule: PointRule = self.rule_for_vertex(v as u32);
            proof {
                assert(all[faces + edges + v] == rule@);
                assert(all.take(faces + edges + v + 1) =~= all.take(faces + edges + v).push(rule@));
                assert(rule_views(out@.push(rule)) =~= rule_views(out@).push(rule@));
            }
            out.push(rule);
            v += 1;
        }
        assert(all.take(faces + edges + vertices) =~= all);
        out
    }
}

impl SubdivCage {
    /// One Catmull-Clark round; sharpnesses decay by 1 (semi-sharp creases).
    pub fn subdivide_once(&self) -> (r: Refinement)
        requires
            is_cage(self@),
        ensures
            r@ == refined(self@),
    {
        let ghost c = self@;
        let faces: usize = self.faces.len();
        let count: usize = self.positions.len();
        proof {
            assert forall|f: int, i: int|
                0 <= f < self.faces@.len() && 0 <= i < self.faces@[f]@.len() implies #[trigger] self.faces@[f]@[i]
                < count by {
                assert(c.faces[f][i] < c.positions.len());
            }
        }
        let topology: Topology = build_topology(&self.faces, count);
        let edge_sharp: Vec<u64> = list_edge_sharpness(
            &topology,
            &self.crease_edges,
            Ghost(count as int),
        );
        let vertex_sharp: Vec<u64> = list_vertex_sharpness(&self.corners, count);
        let holes: Vec<bool> = list_holes(&self.holes, faces);
        let round: Round = Round { cage: self, topology, edge_sharp, vertex_sharp };
        let mut quads: Vec<Vec<u32>> = Vec::new();
        let mut f: usize = 0;
        assert(ring_views(quads@) =~= seq![]);
        while f < faces
            invariant
                round.is_ready(),
                round.cage@ == c,
                c == self@,
                f <= faces == c.faces.len(),
                faces <= u32::MAX,
                holes@.len() == faces,
                forall|f: int|
                    0 <= f < faces ==> #[trigger] holes@[f] == self.holes@.contains(f as u32),
                ring_views(quads@) == refined_faces(c, f as int),
            decreases faces - f,
        {
            if !holes[f] {
                round.push_quads(f, &mut quads);
            }
            f += 1;
            assert(ring_views(quads@) =~= refined_faces(c, f as int));
        }
        Refinement {
            rules: round.list_rules(),
            faces: quads,
            crease_edges: round.list_creases(),
            corners: round.list_corners(),
        }
    }

    /// The next cage, once its points are placed.
    pub fn next_cage(&self, round: Refinement, positions: Vec<Vec3>) -> (r: SubdivCage)
        ensures
            r@ == next_cage(self@, round@, positions@),
    {
        let r: SubdivCage = SubdivCage {
            positions,
            faces: round.faces,
            crease_edges: round.crease_edges,
            corners: round.corners,
            holes: Vec::new(),
            interpolate_boundary: self.interpolate_boundary,
        };
        assert(r@.holes =~= seq![]);
        r
    }

    /// Sharpness of ten or more is infinite: it is pinned before the first round.
    pub fn pin_infinite(&mut self)
        ensures
            final(self)@ == pinned_cage(old(self)@),
    {
        let n: usize = self.crease_edges.len();
        let mut i: usize = 0;
        let ghost before = self@;
        while i < n
            invariant
                i <= n == self.crease_edges@.len(),
                n == before.crease_edges.len(),
                self.positions@ == before.positions,
                ring_views(self.faces@) == before.faces,
                self.corners@ == before.corners,
                self.holes@ == before.holes,
                self.interpolate_boundary == before.interpolate_boundary,
                forall|k: int|
                    0 <= k < n ==> #[trigger] self.crease_edges@[k] == if k < i {
                        pinned_crease(before.crease_edges[k])
                    } else {
                        before.crease_edges[k]
                    },
            decreases n - i,
        {
            let c: Crease = self.crease_edges[i];
            if double::less_or_equal(PINNED, c.sharpness) {
                self.crease_edges.set(i, Crease { a: c.a, b: c.b, sharpness: INFINITE });
            }
            i += 1;
        }
        let m: usize = self.corners.len();
        let mut j: usize = 0;
        let ghost creases = self.crease_edges@;
        while j < m
            invariant
                j <= m == self.corners@.len(),
                m == before.corners.len(),
                self.positions@ == before.positions,
                ring_views(self.faces@) == before.faces,
                self.crease_edges@ == creases,
                self.holes@ == before.holes,
                self.interpolate_boundary == before.interpolate_boundary,
                forall|k: int|
                    0 <= k < m ==> #[trigger] self.corners@[k] == if k < j {
                        pinned_corner(before.corners[k])
                    } else {
                        before.corners[k]
                    },
            decreases m - j,
        {
            let c: Corner = self.corners[j];
            if double::less_or_equal(PINNED, c.sharpness) {
                self.corners.set(j, Corner { vertex: c.vertex, sharpness: INFINITE });
            }
            j += 1;
        }
        proof {
            let model = pinned_cage(before);
            assert(self.crease_edges@ =~= model.crease_edges);
            assert(self.corners@ =~= model.corners);
        }
    }

    /// The triangles that cover the faces, as fans.
    pub fn triangles(&self) -> (r: Vec<u32>)
        ensures
            r@ == fans_of(self@.faces),
    {
        let ghost rings = self@.faces;
        let n: usize = self.faces.len();
        let mut out: Vec<u32> = Vec::new();
        let mut f: usize = 0;
        assert(rings.take(0) =~= seq![]);
        while f < n
            invariant
                f <= n == self.faces@.len(),
                rings == self@.faces,
                out@ == fans_of(rings.take(f as int)),
            decreases n - f,
        {
            proof {
                assert(rings.take(f + 1).drop_last() =~= rings.take(f as int));
                assert(rings[f as int] == self.faces@[f as int]@);
            }
            mesh::push_fan(&mut out, self.faces[f].as_slice());
            f += 1;
        }
        assert(rings.take(n as int) =~= rings);
        out
    }
}

/// The next cage: what a round gives, with no holes, and its points.
pub open spec fn next_cage(c: CageView, round: RefinementView, positions: Seq<Vec3>) -> CageView {
    CageView {
        positions,
        faces: round.faces,
        crease_edges: round.crease_edges,
        corners: round.corners,
        holes: seq![],
        interpolate_boundary: c.interpolate_boundary,
    }
}

pub open spec fn pinned_crease(c: Crease) -> Crease {
    if double::at_most(PINNED, c.sharpness) {
        Crease { a: c.a, b: c.b, sharpness: INFINITE }
    } else {
        c
    }
}

pub open spec fn pinned_corner(c: Corner) -> Corner {
    if double::at_most(PINNED, c.sharpness) {
        Corner { vertex: c.vertex, sharpness: INFINITE }
    } else {
        c
    }
}

/// A cage with its large sharpness made infinite.
pub open spec fn pinned_cage(c: CageView) -> CageView {
    CageView {
        crease_edges: c.crease_edges.map_values(|k: Crease| pinned_crease(k)),
        corners: c.corners.map_values(|k: Corner| pinned_corner(k)),
        ..c
    }
}

/// The fans of triangles that cover these faces.
pub open spec fn fans_of(faces: Seq<Seq<u32>>) -> Seq<u32>
    decreases faces.len(),
{
    if faces.len() == 0 {
        seq![]
    } else {
        fans_of(faces.drop_last()) + mesh::fan(faces.last())
    }
}

// ---- laws ------------------------------------------------------------------

/// After a round every face is a quad, its corners are points of the next cage, and
/// there is one point for each face, edge and vertex.
pub proof fn refinement_is_quads(c: CageView, n: int)
    requires
        is_cage(c),
        0 <= n <= c.faces.len(),
    ensures
        refined(c).rules.len() == c.faces.len() + cage_edges(c).len() + c.positions.len(),
        forall|q: int|
            0 <= q < refined_faces(c, n).len() ==> (#[trigger] refined_faces(c, n)[q]).len() == 4,
        forall|q: int, i: int|
            0 <= q < refined_faces(c, n).len() && 0 <= i < 4 ==> #[trigger] refined_faces(c, n)[q][i]
                < refined(c).rules.len(),
    decreases n,
{
    let h = all_sides(c.faces);
    edges_distinct(h);
    if n > 0 {
        let f = n - 1;
        refinement_is_quads(c, f);
        let before = refined_faces(c, f);
        let all = refined_faces(c, n);
        assert forall|q: int| 0 <= q < all.len() implies (#[trigger] all[q]).len() == 4 by {
            if q < before.len() {
                assert(all[q] == before[q]);
            }
        }
        assert forall|q: int, i: int|
            0 <= q < all.len() && 0 <= i < 4 implies #[trigger] all[q][i]
            < refined(c).rules.len() by {
            if q < before.len() {
                assert(all[q] == before[q]);
                assert(before[q][i] < refined(c).rules.len());
            } else {
                let k = q - before.len();
                let ring = c.faces[f];
                let m = ring.len() as int;
                assert(all[q] == corner_quad(c, f, k));
                ring_neighbours(k, m);
                let p = (k + m - 1) % m;
                ring_neighbours(p, m);
                corner_edge(c, f, k);
                corner_edge(c, f, p);
                assert(c.faces[f][k] < c.positions.len());
            }
        }
    }
}

/// The side from a corner lies on an edge that has a point.
proof fn corner_edge(c: CageView, f: int, i: int)
    requires
        is_cage(c),
        0 <= f < c.faces.len(),
        0 <= i < c.faces[f].len(),
    ensures
        ({
            let e = edge_between(c.faces[f][i], c.faces[f][(i + 1) % (c.faces[f].len() as int)]);
            &&& cage_edges(c).contains(e)
            &&& 0 <= cage_edges(c).index_of(e) < cage_edges(c).len()
        }),
{
    let h = all_sides(c.faces);
    edges_distinct(h);
    sides_of_face(c.faces, f, i);
    let k = choose|k: int| 0 <= k < h.len() && #[trigger] h[k] == sides(f as u32, c.faces[f])[i];
    let e = edge_between(c.faces[f][i], c.faces[f][(i + 1) % (c.faces[f].len() as int)]);
    assert(edge_of(h[k]) == e);
    assert(cage_edges(c).contains(edge_of(h[k])));
    assert(cage_edges(c)[cage_edges(c).index_of(e)] == e);
}

/// A face that is a hole gives no face, and each other face gives one for each of its
/// corners.
pub proof fn refinement_counts_corners(c: CageView, n: int)
    requires
        0 < n <= c.faces.len(),
    ensures
        refined_faces(c, n).len() == refined_faces(c, n - 1).len() + if c.holes.contains(
            (n - 1) as u32,
        ) {
            0
        } else {
            c.faces[n - 1].len()
        },
{
}

// ---- all rounds ------------------------------------------------------------

/// The faces and the corners that stay sharp name vertices of the cage.
pub open spec fn names_vertices(c: CageView) -> bool {
    &&& forall|f: int, i: int|
        0 <= f < c.faces.len() && 0 <= i < c.faces[f].len() ==> #[trigger] c.faces[f][i]
            < c.positions.len()
    &&& forall|k: int|
        0 <= k < c.corners.len() && double::below(ONE, (#[trigger] c.corners[k]).sharpness)
            ==> c.corners[k].vertex < c.positions.len()
}

/// Whether the points of the next cage can be numbered.
pub open spec fn can_grow(c: CageView) -> bool {
    c.faces.len() + all_sides(c.faces).len() + c.positions.len() <= u32::MAX
}

/// The cage after one round.
pub open spec fn round_done<F: Fn(Op, u64, u64) -> u64>(c: CageView, f: F) -> CageView {
    next_cage(
        c,
        refined(c),
        Seq::new(refined(c).rules.len(), |i: int| placing::rule_point(f, c, refined(c).rules[i])),
    )
}

/// The cage after `n` rounds; none where there would be too many points to number.
pub open spec fn rounds_done<F: Fn(Op, u64, u64) -> u64>(
    c: CageView,
    f: F,
    n: nat,
) -> Option<CageView>
    decreases n,
{
    if n == 0 {
        Some(c)
    } else {
        match rounds_done(c, f, (n - 1) as nat) {
            Some(d) => if can_grow(d) {
                Some(round_done(d, f))
            } else {
                None
            },
            None => None,
        }
    }
}

/// The corners that a round keeps name points of the next cage.
proof fn refined_corners_are_vertices(c: CageView, corners: Seq<Corner>)
    requires
        c.faces.len() + cage_edges(c).len() + c.positions.len() <= u32::MAX,
        forall|k: int|
            0 <= k < corners.len() && double::below(ONE, (#[trigger] corners[k]).sharpness)
                ==> corners[k].vertex < c.positions.len(),
    ensures
        forall|k: int|
            0 <= k < refined_corners(c, corners).len() ==> (#[trigger] refined_corners(
                c,
                corners,
            )[k]).vertex < c.faces.len() + cage_edges(c).len() + c.positions.len(),
    decreases corners.len(),
{
    if corners.len() > 0 {
        let before = corners.drop_last();
        assert forall|k: int|
            0 <= k < before.len() && double::below(ONE, (#[trigger] before[k]).sharpness) implies
            before[k].vertex < c.positions.len() by {
            assert(before[k] == corners[k]);
        }
        refined_corners_are_vertices(c, before);
        let all = refined_corners(c, corners);
        let kept = refined_corners(c, before);
        assert(corners[corners.len() - 1] == corners.last());
        assert forall|k: int| 0 <= k < all.len() implies (#[trigger] all[k]).vertex
            < c.faces.len() + cage_edges(c).len() + c.positions.len() by {
            if k < kept.len() {
                assert(all[k] == kept[k]);
            }
        }
    }
}

/// After a round the faces and corners name points of the next cage.
pub proof fn rounds_keep_vertices(c: CageView, positions: Seq<Vec3>)
    requires
        is_cage(c),
        positions.len() == refined(c).rules.len(),
    ensures
        names_vertices(next_cage(c, refined(c), positions)),
{
    let n = c.faces.len() as int;
    let next = next_cage(c, refined(c), positions);
    refinement_is_quads(c, n);
    edges_distinct(all_sides(c.faces));
    refined_corners_are_vertices(c, c.corners);
    assert forall|f: int, i: int|
        0 <= f < next.faces.len() && 0 <= i < next.faces[f].len() implies #[trigger] next.faces[f][i]
        < next.positions.len() by {
        assert(refined_faces(c, n)[f].len() == 4);
        assert(refined_faces(c, n)[f][i] < refined(c).rules.len());
    }
}

/// How many sides the faces have.
fn count_sides(faces: &Vec<Vec<u32>>) -> (r: u128)
    ensures
        r == all_sides(ring_views(faces@)).len(),
{
    let ghost rings = ring_views(faces@);
    let n: usize = faces.len();
    let mut total: u128 = 0;
    let mut f: usize = 0;
    assert(rings.take(0).len() == 0);
    while f < n
        invariant
            f <= n == faces@.len(),
            rings == ring_views(faces@),
            total == all_sides(rings.take(f as int)).len(),
            total <= f * 0xffff_ffff_ffff_ffff,
        decreases n - f,
    {
        let m: usize = faces[f].len();
        proof {
            assert(rings.take(f + 1).drop_last() =~= rings.take(f as int));
            assert(rings.take(f + 1).last() == faces@[f as int]@);
            assert(f * 0xffff_ffff_ffff_ffff <= 0xffff_ffff_ffff_fffe * 0xffff_ffff_ffff_ffff)
                by (nonlinear_arith)
                requires
                    0 <= f <= 0xffff_ffff_ffff_fffe,
            ;
        }
        total = total + m as u128;
        f += 1;
    }
    assert(rings.take(n as int) =~= rings);
    total
}

/// What an optional cage is.
pub open spec fn cage_view(c: Option<SubdivCage>) -> Option<CageView> {
    match c {
        Some(c) => Some(c@),
        None => None,
    }
}

/// The mesh of a cage: its faces as fans of triangles, with smooth normals.
pub open spec fn cage_mesh<F: Fn(Op, u64, u64) -> u64>(f: F, c: CageView) -> PolygonMeshView {
    let positions = c.positions.map_values(|p: Vec3| normals::single_triple(p));
    PolygonMeshView {
        positions,
        indices: fans_of(c.faces),
        normals: Some(normals::vertex_normals(f, positions, fans_of(c.faces))),
        st: None,
        positions1: None,
    }
}

/// Fans name the vertices of their faces.
proof fn fans_name_vertices(faces: Seq<Seq<u32>>, n: int)
    requires
        forall|f: int, i: int|
            0 <= f < faces.len() && 0 <= i < faces[f].len() ==> #[trigger] faces[f][i] < n,
    ensures
        forall|i: int| 0 <= i < fans_of(faces).len() ==> (#[trigger] fans_of(faces)[i]) < n,
    decreases faces.len(),
{
    if faces.len() > 0 {
        let before = faces.drop_last();
        assert forall|f: int, i: int|
            0 <= f < before.len() && 0 <= i < before[f].len() implies #[trigger] before[f][i] < n by {
            assert(before[f] == faces[f]);
            assert(faces[f][i] < n);
        }
        fans_name_vertices(before, n);
        let last = faces.len() - 1;
        let ring = faces.last();
        let fan = mesh::fan(ring);
        let all = fans_of(faces);
        assert forall|i: int| 0 <= i < all.len() implies (#[trigger] all[i]) < n by {
            if i < fans_of(before).len() {
                assert(all[i] == fans_of(before)[i]);
            } else {
                let k = i - fans_of(before).len();
                assert(all[i] == fan[k]);
                if k % 3 == 0 {
                    assert(faces[last][0] < n);
                } else {
                    assert(faces[last][k / 3 + k % 3] < n);
                }
            }
        }
    }
}

impl SubdivCage {
    /// The points that rules place.
    fn place_points<F: Fn(Op, u64, u64) -> u64>(&self, rules: &Vec<PointRule>, f: &F) -> (r: Vec<
        Vec3,
    >)
        requires
            computes(*f),
        ensures
            r@ == Seq::new(
                rules@.len(),
                |i: int| placing::rule_point(*f, self@, rule_views(rules@)[i]),
            ),
    {
        let n: usize = rules.len();
        let mut out: Vec<Vec3> = Vec::new();
        let mut i: usize = 0;
        while i < n
            invariant
                i <= n == rules@.len(),
                computes(*f),
                out@.len() == i,
                forall|k: int|
                    0 <= k < i ==> #[trigger] out@[k] == placing::rule_point(
                        *f,
                        self@,
                        rule_views(rules@)[k],
                    ),
            decreases n - i,
        {
            out.push(place_point(self, &rules[i], f));
            i += 1;
        }
        assert(out@ =~= Seq::new(
            rules@.len(),
            |i: int| placing::rule_point(*f, self@, rule_views(rules@)[i]),
        ));
        out
    }

    /// Subdivides that often. None where there would be too many points to number.
    pub fn subdivide<F: Fn(Op, u64, u64) -> u64>(self, levels: u32, f: &F) -> (r: Option<SubdivCage>)
        requires
            names_vertices(self@),
            computes(*f),
        ensures
            cage_view(r) == rounds_done(pinned_cage(self@), *f, levels as nat),
            r matches Some(c) ==> names_vertices(c@),
    {
        let mut cage: SubdivCage = self;
        cage.pin_infinite();
        let ghost first = cage@;
        proof {
            assert forall|k: int|
                0 <= k < first.corners.len() && double::below(
                    ONE,
                    (#[trigger] first.corners[k]).sharpness,
                ) implies first.corners[k].vertex < first.positions.len() by {
                let c = self@.corners[k];
                assert(first.corners[k] == pinned_corner(c));
                assert(double::at_most(PINNED, c.sharpness) ==> double::below(ONE, c.sharpness));
            }
        }
        let mut n: u32 = 0;
        while n < levels
            invariant
                n <= levels,
                first == pinned_cage(self@),
                names_vertices(cage@),
                computes(*f),
                rounds_done(first, *f, n as nat) == Some(cage@),
            decreases levels - n,
        {
            let sides: u128 = count_sides(&cage.faces);
            let total: u128 = cage.faces.len() as u128 + cage.positions.len() as u128;
            if sides > 0xffff_ffff || total + sides > 0xffff_ffff {
                proof {
                    rounds_end(first, *f, (n + 1) as nat, levels as nat);
                }
                return None;
            }
            let round: Refinement = cage.subdivide_once();
            let points: Vec<Vec3> = cage.place_points(&round.rules, f);
            proof {
                rounds_keep_vertices(cage@, points@);
                assert(points@ =~= Seq::new(
                    refined(cage@).rules.len(),
                    |i: int| placing::rule_point(*f, cage@, refined(cage@).rules[i]),
                ));
            }
            let next: SubdivCage = cage.next_cage(round, points);
            cage = next;
            n += 1;
        }
        Some(cage)
    }

    /// The mesh of the cage.
    fn mesh<F: Fn(Op, u64, u64) -> u64>(&self, f: &F) -> (r: PolygonMesh)
        requires
            names_vertices(self@),
            computes(*f),
        ensures
            r@ == cage_mesh(*f, self@),
    {
        let ghost model = cage_mesh(*f, self@);
        let n: usize = self.positions.len();
        let mut positions: Vec<Single3> = Vec::new();
        let mut i: usize = 0;
        while i < n
            invariant
                i <= n == self.positions@.len(),
                positions@.len() == i,
                forall|k: int|
                    0 <= k < i ==> #[trigger] positions@[k] == normals::single_triple(
                        self.positions@[k],
                    ),
            decreases n - i,
        {
            positions.push(narrow_triple(self.positions[i]));
            i += 1;
        }
        assert(positions@ =~= model.positions);
        let indices: Vec<u32> = self.triangles();
        proof {
            fans_name_vertices(self@.faces, n as int);
        }
        let lit: Vec<Single3> = smooth_normals(&positions, &indices, f);
        PolygonMesh { positions, indices, normals: Some(lit), st: None, positions1: None }
    }

    /// Subdivides that often and covers the faces with triangles. None where there would be
    /// too many points to number.
    pub fn tessellate<F: Fn(Op, u64, u64) -> u64>(self, levels: u32, f: &F) -> (r: Option<
        PolygonMesh,
    >)
        requires
            names_vertices(self@),
            computes(*f),
        ensures
            match rounds_done(pinned_cage(self@), *f, levels as nat) {
                Some(c) => r matches Some(m) && m@ == cage_mesh(*f, c),
                None => r is None,
            },
    {
        match self.subdivide(levels, f) {
            Some(c) => Some(c.mesh(f)),
            None => None,
        }
    }
}

/// Where some round cannot be done, no later one can.
proof fn rounds_end<F: Fn(Op, u64, u64) -> u64>(c: CageView, f: F, i: nat, n: nat)
    requires
        i <= n,
        rounds_done(c, f, i) is None,
    ensures
        rounds_done(c, f, n) is None,
    decreases n,
{
    if i < n {
        rounds_end(c, f, i, (n - 1) as nat);
    }
}

} // verus!
