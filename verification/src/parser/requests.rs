//! What single geometry requests ask for: their arguments with the defaults
//! filled in, as plain data.

use crate::double;
use crate::geometry::mesh;
use crate::geometry::mesh::PolygonMesh;
use crate::geometry::patches;
use crate::geometry::patches::BasisUse;
use crate::geometry::subdiv;
use crate::geometry::subdiv::{Corner, Crease, SubdivCage};
use crate::math;
use crate::math::Vec3;
use crate::parser::ast;
use crate::parser::ast::{RibRequest, RibValue};
use crate::text;
use vstd::prelude::*;
use vstd::string::*;

verus! {

/// Bits of 10: the sharpness of a tag that gives none.
pub const DEFAULT_SHARPNESS: u64 = 0x4024_0000_0000_0000;

// ---- arguments in general --------------------------------------------------

/// Where the parameter list of a request with an optional handle starts: after
/// the handle where the number of values is even (name, handle, pairs).
pub open spec fn params_start(q: ast::RequestView) -> int {
    if q.values.len() % 2 == 0 {
        2
    } else {
        1
    }
}

/// Where the parameter list of a request with an optional handle starts.
pub fn params_start_exec(q: &RibRequest) -> (r: usize)
    ensures
        r == params_start(q@),
{
    if q.values.len() % 2 == 0 {
        2
    } else {
        1
    }
}

/// The value, or `default` where there is none.
pub open spec fn or_default<T>(v: Option<T>, default: T) -> T {
    match v {
        Some(x) => x,
        None => default,
    }
}

/// The parameter of that name as a triple of numbers.
pub open spec fn triple_param(
    pairs: Seq<(Seq<char>, ast::ValueView)>,
    name: Seq<char>,
) -> Option<Vec3> {
    match ast::numbers_param(pairs, name) {
        Some(v) => math::first_three(v),
        None => None,
    }
}

/// The parameter of that name as a triple of numbers, or `default`.
pub fn triple_or(params: &ast::ParamList<'_>, name: &str, default: Vec3) -> (r: Vec3)
    ensures
        r == or_default(triple_param(params@, name@), default),
{
    match params.get_numbers(name) {
        Some(v) => match math::vec3_from(v) {
            Some(c) => c,
            None => default,
        },
        None => default,
    }
}

/// The parameter of that name as a number, or `default`.
pub fn number_or(params: &ast::ParamList<'_>, name: &str, default: u64) -> (r: u64)
    ensures
        r == or_default(ast::number_param(params@, name@), default),
{
    match params.get_number(name) {
        Some(v) => v,
        None => default,
    }
}

/// A colour: three numbers, or an array that starts with them.
pub open spec fn color_of(q: ast::RequestView) -> Option<Vec3> {
    if q.number(0) is Some && q.number(1) is Some && q.number(2) is Some {
        Some(Vec3::of(q.number(0)->0, q.number(1)->0, q.number(2)->0))
    } else {
        match q.numbers(0) {
            Some(v) => math::first_three(v),
            None => None,
        }
    }
}

/// The colour that a request gives.
pub fn color_from(q: &RibRequest) -> (r: Option<Vec3>)
    ensures
        r == color_of(q@),
{
    if let Some(x) = q.number(0) {
        if let Some(y) = q.number(1) {
            if let Some(z) = q.number(2) {
                return Some(Vec3::new(x, y, z));
            }
        }
    }
    match q.numbers(0) {
        Some(v) => math::vec3_from(v),
        None => None,
    }
}

/// The entry of a 4x4 matrix, row by row, that 16 RIB numbers give: RIB matrices
/// stand in premultiply convention, so rows and columns are exchanged.
pub open spec fn transposed(m: Seq<u64>) -> Seq<u64> {
    Seq::new(16, |i: int| m[(i % 4) * 4 + i / 4])
}

/// The matrix that 16 RIB numbers give, row by row.
pub fn matrix_from_rib(m: &[u64]) -> (r: Option<Vec<u64>>)
    ensures
        match r {
            Some(v) => m@.len() == 16 && v@ == transposed(m@),
            None => m@.len() != 16,
        },
{
    if m.len() != 16 {
        return None;
    }
    let mut out: Vec<u64> = Vec::new();
    let mut i: usize = 0;
    while i < 16
        invariant
            i <= 16,
            m@.len() == 16,
            out@.len() == i,
            forall|k: int| 0 <= k < i ==> out@[k] == transposed(m@)[k],
        decreases 16 - i,
    {
        out.push(m[(i % 4) * 4 + i / 4]);
        i += 1;
    }
    assert(out@ =~= transposed(m@));
    Some(out)
}

// ---- polygons --------------------------------------------------------------

/// The doubles `v[from..to]` cut to vertex indices.
pub open spec fn index_ring(v: Seq<u64>, from: int, to: int) -> Seq<u32> {
    Seq::new((to - from) as nat, |i: int| double::cut_to(v[from + i], u32::MAX as nat) as u32)
}

fn index_ring_exec(v: &[u64], from: usize, to: usize) -> (r: Vec<u32>)
    requires
        from <= to <= v@.len(),
    ensures
        r@ == index_ring(v@, from as int, to as int),
{
    let mut out: Vec<u32> = Vec::new();
    let mut i: usize = from;
    while i < to
        invariant
            from <= i <= to <= v@.len(),
            out@.len() == i - from,
            forall|k: int| 0 <= k < i - from ==> out@[k] == index_ring(v@, from as int, to as int)[k],
        decreases to - i,
    {
        out.push(double::to_u32(v[i]));
        i += 1;
    }
    assert(out@ =~= index_ring(v@, from as int, to as int));
    out
}

/// A vertex or loop count.
pub open spec fn count_of(n: u64) -> nat {
    double::cut_to(n, usize::MAX as nat)
}

/// The rings of vertex indices from count `k` on: count by count, from `cursor`
/// on in the flat list of vertices, as long as the list lasts.
pub open spec fn rings_from(counts: Seq<u64>, verts: Seq<u64>, k: int, cursor: int) -> Seq<Seq<u32>>
    decreases counts.len() - k,
{
    if 0 <= k < counts.len() && cursor + count_of(counts[k]) <= verts.len() {
        seq![index_ring(verts, cursor, cursor + count_of(counts[k]))] + rings_from(
            counts,
            verts,
            k + 1,
            cursor + count_of(counts[k]),
        )
    } else {
        seq![]
    }
}

/// The faces that face sizes and a flat list of vertices describe.
pub fn faces_of(counts: &[u64], verts: &[u64]) -> (r: Vec<Vec<u32>>)
    ensures
        subdiv::ring_views(r@) == rings_from(counts@, verts@, 0, 0),
{
    let mut out: Vec<Vec<u32>> = Vec::new();
    let mut k: usize = 0;
    let mut cursor: usize = 0;
    let ghost all = rings_from(counts@, verts@, 0, 0);
    assert(subdiv::ring_views(out@) =~= seq![]);
    assert(all =~= Seq::<Seq<u32>>::empty() + all);
    while k < counts.len()
        invariant_except_break
            all == subdiv::ring_views(out@) + rings_from(counts@, verts@, k as int, cursor as int),
        invariant
            k <= counts@.len(),
            cursor <= verts@.len(),
        ensures
            all == subdiv::ring_views(out@),
        decreases counts@.len() - k,
    {
        let n: usize = double::to_usize(counts[k]);
        if n > verts.len() - cursor {
            assert(subdiv::ring_views(out@) + Seq::<Seq<u32>>::empty() =~= subdiv::ring_views(out@));
            break;
        }
        let ring: Vec<u32> = index_ring_exec(verts, cursor, cursor + n);
        let ghost before = subdiv::ring_views(out@);
        let ghost rv = ring@;
        out.push(ring);
        proof {
            assert(subdiv::ring_views(out@) =~= before.push(rv));
            let rest = rings_from(counts@, verts@, k + 1, cursor + n);
            assert(before + (seq![rv] + rest) =~= before.push(rv) + rest);
        }
        cursor += n;
        k += 1;
        assert(k == counts@.len() ==> subdiv::ring_views(out@) + Seq::<Seq<u32>>::empty()
            =~= subdiv::ring_views(out@));
    }
    out
}

/// The fans of all rings, one after the other.
pub open spec fn fans(rings: Seq<Seq<u32>>) -> Seq<u32>
    decreases rings.len(),
{
    if rings.len() == 0 {
        seq![]
    } else {
        fans(rings.drop_last()) + mesh::fan(rings.last())
    }
}

/// The triangles that cover all rings.
pub fn triangulate_rings(rings: &Vec<Vec<u32>>) -> (r: Vec<u32>)
    ensures
        r@ == fans(subdiv::ring_views(rings@)),
{
    let mut out: Vec<u32> = Vec::new();
    let mut i: usize = 0;
    let ghost views = subdiv::ring_views(rings@);
    assert(views.subrange(0, 0) =~= seq![]);
    while i < rings.len()
        invariant
            i <= rings@.len(),
            views == subdiv::ring_views(rings@),
            out@ == fans(views.subrange(0, i as int)),
        decreases rings@.len() - i,
    {
        mesh::push_fan(&mut out, rings[i].as_slice());
        assert(views.subrange(0, i + 1).drop_last() =~= views.subrange(0, i as int));
        i += 1;
    }
    assert(views.subrange(0, i as int) =~= views);
    out
}

/// Whether a polygon request has the arrays and the "P" that it needs, its values
/// counted from `first` on.
pub open spec fn polygon_arrays(q: ast::RequestView, first: int) -> Option<
    (Seq<u64>, Seq<u64>),
> {
    match (q.numbers(first), q.numbers(first + 1)) {
        (Some(counts), Some(verts)) => Some((counts, verts)),
        _ => None,
    }
}

/// The mesh of a polygon request, its values counted from `first` on: face sizes,
/// vertex indices, then "P", per-vertex "N" and "st". `deformed` holds the
/// positions at shutter close.
pub open spec fn polygon_mesh(
    q: ast::RequestView,
    first: int,
    deformed: Option<Seq<u64>>,
) -> Option<mesh::PolygonMeshView> {
    match polygon_arrays(q, first) {
        None => None,
        Some((counts, verts)) => {
            let params = q.params(first + 2);
            match ast::numbers_param(params, "P"@) {
                None => None,
                Some(p) => {
                    let indices = fans(rings_from(counts, verts, 0, 0));
                    if indices.len() == 0 {
                        None
                    } else {
                        Some(
                            mesh::PolygonMeshView {
                                positions: mesh::narrowed_triples(p),
                                indices,
                                normals: match ast::numbers_param(params, "N"@) {
                                    Some(n) => if n.len() == p.len() {
                                        Some(mesh::narrowed_triples(n))
                                    } else {
                                        None
                                    },
                                    None => None,
                                },
                                st: match ast::numbers_param(params, "st"@) {
                                    Some(s) => if s.len() * 3 == p.len() * 2 {
                                        Some(mesh::narrowed_pairs(s))
                                    } else {
                                        None
                                    },
                                    None => None,
                                },
                                positions1: match deformed {
                                    Some(d) => if d.len() == p.len() {
                                        Some(mesh::narrowed_triples(d))
                                    } else {
                                        None
                                    },
                                    None => None,
                                },
                            },
                        )
                    }
                },
            }
        },
    }
}

/// Whether a polygon request carries normals that are not one per vertex.
pub open spec fn polygon_normals_mismatch(q: ast::RequestView, first: int) -> bool {
    let params = q.params(first + 2);
    polygon_arrays(q, first) is Some && match (
        ast::numbers_param(params, "P"@),
        ast::numbers_param(params, "N"@),
    ) {
        (Some(p), Some(n)) => n.len() != p.len(),
        _ => false,
    }
}

/// Whether a polygon request has its arrays but no "P".
pub open spec fn polygon_lacks_positions(q: ast::RequestView, first: int) -> bool {
    polygon_arrays(q, first) is Some && ast::numbers_param(q.params(first + 2), "P"@) is None
}

/// What became of a polygon request.
#[derive(Debug)]
pub struct PolygonReply {
    /// Its arrays are there, its "P" is not.
    pub lacks_positions: bool,
    /// Its normals are not one per vertex.
    pub normals_mismatch: bool,
    pub mesh: Option<PolygonMesh>,
}

/// What an optional mesh is.
pub open spec fn opt_mesh(m: Option<PolygonMesh>) -> Option<mesh::PolygonMeshView> {
    match m {
        Some(m) => Some(m@),
        None => None,
    }
}

/// The mesh of a polygon request, its values counted from `first` on.
pub fn polygons_from(q: &RibRequest, first: usize, deformed: Option<&[u64]>) -> (r: PolygonReply)
    requires
        first <= 1,
    ensures
        opt_mesh(r.mesh) == polygon_mesh(q@, first as int, ast::opt_numbers(deformed)),
        r.lacks_positions == polygon_lacks_positions(q@, first as int),
        r.normals_mismatch == polygon_normals_mismatch(q@, first as int),
{
    let nothing: PolygonReply = PolygonReply {
        lacks_positions: false,
        normals_mismatch: false,
        mesh: None,
    };
    let counts: &[u64] = match q.numbers(first) {
        Some(v) => v,
        None => {
            return nothing;
        },
    };
    let verts: &[u64] = match q.numbers(first + 1) {
        Some(v) => v,
        None => {
            return nothing;
        },
    };
    let params = q.params_from(first + 2);
    let p: &[u64] = match params.get_numbers("P") {
        Some(v) => v,
        None => {
            return PolygonReply { lacks_positions: true, normals_mismatch: false, mesh: None };
        },
    };
    let mut normals_mismatch: bool = false;
    let normals: Option<Vec<mesh::Single3>> = match params.get_numbers("N") {
        Some(n) => if n.len() == p.len() {
            Some(mesh::narrow_triples(n))
        } else {
            normals_mismatch = true;
            None
        },
        None => None,
    };
    let st: Option<Vec<mesh::Single2>> = match params.get_numbers("st") {
        Some(s) => if s.len() as u128 * 3 == p.len() as u128 * 2 {
            Some(mesh::narrow_pairs(s))
        } else {
            None
        },
        None => None,
    };
    let indices: Vec<u32> = triangulate_rings(&faces_of(counts, verts));
    if indices.len() == 0 {
        return PolygonReply { lacks_positions: false, normals_mismatch, mesh: None };
    }
    let positions1: Option<Vec<mesh::Single3>> = match deformed {
        Some(d) => if d.len() == p.len() {
            Some(mesh::narrow_triples(d))
        } else {
            None
        },
        None => None,
    };
    PolygonReply {
        lacks_positions: false,
        normals_mismatch,
        mesh: Some(
            PolygonMesh { positions: mesh::narrow_triples(p), indices, normals, st, positions1 },
        ),
    }
}

// ---- subdivision surfaces --------------------------------------------------

/// What the tags of a subdivision mesh have said so far.
pub struct TagsView {
    pub creases: Seq<Crease>,
    pub corners: Seq<Corner>,
    pub holes: Seq<u32>,
    pub interpolate_boundary: bool,
    /// Names of tags that are not supported.
    pub unsupported: Seq<Seq<char>>,
    /// How many integer arguments the tags so far have taken.
    pub ints_used: nat,
    /// How many float arguments the tags so far have taken.
    pub floats_used: nat,
}

/// The part of `v` from `from` on that holds `n` elements, as far as `v` goes.
pub open spec fn part(v: Seq<u64>, from: nat, n: nat) -> Seq<u64> {
    let lo = if from < v.len() { from } else { v.len() };
    let hi = if from + n < v.len() { from + n } else { v.len() };
    v.subrange(lo as int, hi as int)
}

/// The count at index `i`, 0 where there is none.
pub open spec fn count_at(v: Seq<u64>, i: int) -> nat {
    if 0 <= i < v.len() {
        count_of(v[i])
    } else {
        0
    }
}

/// The edges of a crease: each vertex with the next.
pub open spec fn crease_edges(ints: Seq<u64>, floats: Seq<u64>) -> Seq<Crease> {
    let sharpness = if floats.len() > 0 { floats[0] } else { DEFAULT_SHARPNESS };
    let v = index_ring(ints, 0, ints.len() as int);
    Seq::new(
        if ints.len() > 0 { (ints.len() - 1) as nat } else { 0 },
        |i: int| Crease { a: v[i], b: v[i + 1], sharpness },
    )
}

/// The corners of a corner tag: each vertex with its own sharpness, or the first.
pub open spec fn corner_list(ints: Seq<u64>, floats: Seq<u64>) -> Seq<Corner> {
    let v = index_ring(ints, 0, ints.len() as int);
    Seq::new(
        ints.len(),
        |i: int|
            Corner {
                vertex: v[i],
                sharpness: if i < floats.len() {
                    floats[i]
                } else if floats.len() > 0 {
                    floats[0]
                } else {
                    DEFAULT_SHARPNESS
                },
            },
    )
}

/// What the tags have said after one more tag with these arguments.
pub open spec fn tag_applied(
    t: TagsView,
    name: Seq<char>,
    ints: Seq<u64>,
    floats: Seq<u64>,
) -> TagsView {
    if name == "crease"@ {
        TagsView { creases: t.creases + crease_edges(ints, floats), ..t }
    } else if name == "corner"@ {
        TagsView { corners: t.corners + corner_list(ints, floats), ..t }
    } else if name == "hole"@ {
        TagsView { holes: t.holes + index_ring(ints, 0, ints.len() as int), ..t }
    } else if name == "interpolateboundary"@ {
        TagsView { interpolate_boundary: true, ..t }
    } else {
        TagsView { unsupported: t.unsupported.push(name), ..t }
    }
}

/// What the first `n` tags say. `nargs` gives each tag's number of integer and of
/// float arguments.
pub open spec fn tags_until(
    tags: Seq<Seq<char>>,
    nargs: Seq<u64>,
    ints: Seq<u64>,
    floats: Seq<u64>,
    n: int,
) -> TagsView
    decreases n,
{
    if n <= 0 {
        TagsView {
            creases: seq![],
            corners: seq![],
            holes: seq![],
            interpolate_boundary: false,
            unsupported: seq![],
            ints_used: 0,
            floats_used: 0,
        }
    } else {
        let t = tags_until(tags, nargs, ints, floats, n - 1);
        let ni = count_at(nargs, 2 * (n - 1));
        let nf = count_at(nargs, 2 * (n - 1) + 1);
        let u = tag_applied(t, tags[n - 1], part(ints, t.ints_used, ni), part(floats, t.floats_used, nf));
        TagsView { ints_used: t.ints_used + ni, floats_used: t.floats_used + nf, ..u }
    }
}

/// What the tags of a subdivision mesh say.
#[derive(Debug)]
pub struct Tags {
    pub creases: Vec<Crease>,
    pub corners: Vec<Corner>,
    pub holes: Vec<u32>,
    pub interpolate_boundary: bool,
    pub unsupported: Vec<String>,
}

/// `tags` says what `t` says.
pub open spec fn tags_match(tags: Tags, t: TagsView) -> bool {
    &&& tags.creases@ == t.creases
    &&& tags.corners@ == t.corners
    &&& tags.holes@ == t.holes
    &&& tags.interpolate_boundary == t.interpolate_boundary
    &&& ast::string_views(tags.unsupported@) == t.unsupported
}

fn part_exec(v: &[u64], from: usize, n: usize) -> (r: Vec<u64>)
    ensures
        r@ == part(v@, from as nat, n as nat),
        v@.len() <= usize::MAX,
{
    let lo: usize = if from < v.len() { from } else { v.len() };
    let hi: usize = if n < v.len() - lo { lo + n } else { v.len() };
    let mut out: Vec<u64> = Vec::new();
    let mut i: usize = lo;
    while i < hi
        invariant
            lo <= i <= hi <= v@.len(),
            out@ == v@.subrange(lo as int, i as int),
        decreases hi - i,
    {
        out.push(v[i]);
        i += 1;
    }
    out
}

fn saturating(a: usize, b: usize) -> (r: usize)
    ensures
        r == if a + b > usize::MAX { usize::MAX as int } else { a + b },
{
    if a > usize::MAX - b {
        usize::MAX
    } else {
        a + b
    }
}

fn apply_tag(tags: &mut Tags, name: &String, ints: &Vec<u64>, floats: &Vec<u64>, Ghost(t): Ghost<TagsView>)
    requires
        tags_match(*old(tags), t),
    ensures
        tags_match(*final(tags), tag_applied(t, name@, ints@, floats@)),
{
    let vertices: Vec<u32> = index_ring_exec(ints.as_slice(), 0, ints.len());
    let n: usize = vertices.len();
    if text::same_text(name.as_str(), "crease") {
        let sharpness: u64 = if floats.len() > 0 { floats[0] } else { DEFAULT_SHARPNESS };
        let ghost edges = crease_edges(ints@, floats@);
        let mut i: usize = 0;
        assert(t.creases + edges.subrange(0, 0) =~= t.creases);
        while i + 1 < n
            invariant
                n == vertices@.len(),
                n == ints@.len(),
                vertices@ == index_ring(ints@, 0, n as int),
                edges == crease_edges(ints@, floats@),
                sharpness == (if floats@.len() > 0 { floats@[0] } else { DEFAULT_SHARPNESS }),
                i < n || (i == 0 && n == 0),
                tags.creases@ == t.creases + edges.subrange(0, i as int),
                tags.corners@ == t.corners,
                tags.holes@ == t.holes,
                tags.interpolate_boundary == t.interpolate_boundary,
                ast::string_views(tags.unsupported@) == t.unsupported,
            decreases n - i,
        {
            tags.creases.push(Crease { a: vertices[i], b: vertices[i + 1], sharpness });
            assert(tags.creases@ =~= t.creases + edges.subrange(0, i + 1));
            i += 1;
        }
        assert(edges.subrange(0, i as int) =~= edges);
    } else if text::same_text(name.as_str(), "corner") {
        let ghost list = corner_list(ints@, floats@);
        let mut i: usize = 0;
        assert(t.corners + list.subrange(0, 0) =~= t.corners);
        while i < n
            invariant
                n == vertices@.len(),
                n == ints@.len(),
                vertices@ == index_ring(ints@, 0, n as int),
                list == corner_list(ints@, floats@),
                i <= n,
                tags.creases@ == t.creases,
                tags.corners@ == t.corners + list.subrange(0, i as int),
                tags.holes@ == t.holes,
                tags.interpolate_boundary == t.interpolate_boundary,
                ast::string_views(tags.unsupported@) == t.unsupported,
            decreases n - i,
        {
            let sharpness: u64 = if i < floats.len() {
                floats[i]
            } else if floats.len() > 0 {
                floats[0]
            } else {
                DEFAULT_SHARPNESS
            };
            tags.corners.push(Corner { vertex: vertices[i], sharpness });
            assert(tags.corners@ =~= t.corners + list.subrange(0, i + 1));
            i += 1;
        }
        assert(list.subrange(0, i as int) =~= list);
    } else if text::same_text(name.as_str(), "hole") {
        let mut i: usize = 0;
        assert(t.holes + vertices@.subrange(0, 0) =~= t.holes);
        while i < n
            invariant
                n == vertices@.len(),
                i <= n,
                tags.creases@ == t.creases,
                tags.corners@ == t.corners,
                tags.holes@ == t.holes + vertices@.subrange(0, i as int),
                tags.interpolate_boundary == t.interpolate_boundary,
                ast::string_views(tags.unsupported@) == t.unsupported,
            decreases n - i,
        {
            tags.holes.push(vertices[i]);
            assert(tags.holes@ =~= t.holes + vertices@.subrange(0, i + 1));
            i += 1;
        }
        assert(vertices@.subrange(0, i as int) =~= vertices@);
    } else if text::same_text(name.as_str(), "interpolateboundary") {
        tags.interpolate_boundary = true;
    } else {
        let ghost before = ast::string_views(tags.unsupported@);
        tags.unsupported.push(name.clone());
        assert(ast::string_views(tags.unsupported@) =~= before.push(name@));
    }
}

/// What the tags of a subdivision mesh say.
pub fn read_tags(tags: &Vec<String>, nargs: &[u64], ints: &[u64], floats: &[u64]) -> (r: Tags)
    ensures
        tags_match(
            r,
            tags_until(ast::string_views(tags@), nargs@, ints@, floats@, tags@.len() as int),
        ),
{
    let mut out: Tags = Tags {
        creases: Vec::new(),
        corners: Vec::new(),
        holes: Vec::new(),
        interpolate_boundary: false,
        unsupported: Vec::new(),
    };
    let ghost names = ast::string_views(tags@);
    let mut k: usize = 0;
    let mut ints_used: usize = 0;
    let mut floats_used: usize = 0;
    assert(ast::string_views(out.unsupported@) =~= seq![]);
    while k < tags.len()
        invariant
            k <= tags@.len(),
            names == ast::string_views(tags@),
            tags_match(out, tags_until(names, nargs@, ints@, floats@, k as int)),
            ({
                let t = tags_until(names, nargs@, ints@, floats@, k as int);
                &&& ints_used == if t.ints_used > usize::MAX { usize::MAX as nat } else { t.ints_used }
                &&& floats_used == if t.floats_used > usize::MAX {
                    usize::MAX as nat
                } else {
                    t.floats_used
                }
            }),
        decreases tags@.len() - k,
    {
        let room: usize = nargs.len();
        let ni: usize = if k < room - room / 2 { double::to_usize(nargs[2 * k]) } else { 0 };
        let nf: usize = if k < room / 2 { double::to_usize(nargs[2 * k + 1]) } else { 0 };
        let ghost t = tags_until(names, nargs@, ints@, floats@, k as int);
        assert(ni == count_at(nargs@, 2 * k as int));
        assert(nf == count_at(nargs@, 2 * k + 1));
        let i_part: Vec<u64> = part_exec(ints, ints_used, ni);
        let f_part: Vec<u64> = part_exec(floats, floats_used, nf);
        assert(i_part@ =~= part(ints@, t.ints_used, ni as nat));
        assert(f_part@ =~= part(floats@, t.floats_used, nf as nat));
        assert(names[k as int] == tags@[k as int]@);
        apply_tag(&mut out, &tags[k], &i_part, &f_part, Ghost(t));
        ints_used = saturating(ints_used, ni);
        floats_used = saturating(floats_used, nf);
        k += 1;
    }
    out
}

/// The array of numbers at index `i`, empty where there is none.
pub open spec fn numbers_or_empty(q: ast::RequestView, i: int) -> Seq<u64> {
    match q.numbers(i) {
        Some(v) => v,
        None => seq![],
    }
}

/// What the tag block of a subdivision mesh says, and where its parameters start:
/// the block is there where an array of strings follows the vertices.
pub open spec fn subdivision_tags(q: ast::RequestView) -> (TagsView, int) {
    if q.values.len() > 3 && q.values[3] is Texts {
        let tags = q.values[3]->Texts_0;
        (
            tags_until(
                tags,
                numbers_or_empty(q, 4),
                numbers_or_empty(q, 5),
                numbers_or_empty(q, 6),
                tags.len() as int,
            ),
            7,
        )
    } else {
        (tags_until(seq![], seq![], seq![], seq![], 0), 3)
    }
}

/// Whether a subdivision mesh has a scheme, face sizes and vertices.
pub open spec fn subdivision_arrays(q: ast::RequestView) -> bool {
    q.text(0) is Some && q.numbers(1) is Some && q.numbers(2) is Some
}

/// The cage that a subdivision mesh describes.
pub open spec fn subdivision_cage(q: ast::RequestView) -> Option<subdiv::CageView> {
    if subdivision_arrays(q) {
        let (tags, start) = subdivision_tags(q);
        match ast::numbers_param(q.params(start), "P"@) {
            Some(p) => Some(
                subdiv::CageView {
                    positions: math::triples(p),
                    faces: rings_from(q.numbers(1)->0, q.numbers(2)->0, 0, 0),
                    crease_edges: tags.creases,
                    corners: tags.corners,
                    holes: tags.holes,
                    interpolate_boundary: tags.interpolate_boundary,
                },
            ),
            None => None,
        }
    } else {
        None
    }
}

/// What became of a subdivision mesh request.
#[derive(Debug)]
pub struct SubdivisionReply {
    /// Its scheme, face sizes and vertices are there.
    pub arrays: bool,
    /// Names of its tags that are not supported.
    pub unsupported: Vec<String>,
    pub cage: Option<SubdivCage>,
}

/// What an optional cage is.
pub open spec fn opt_cage(c: Option<SubdivCage>) -> Option<subdiv::CageView> {
    match c {
        Some(c) => Some(c@),
        None => None,
    }
}

fn numbers_or_empty_exec<'a>(q: &'a RibRequest, i: usize, empty: &'a Vec<u64>) -> (r: &'a [u64])
    requires
        empty@.len() == 0,
    ensures
        r@ == numbers_or_empty(q@, i as int),
{
    match q.numbers(i) {
        Some(v) => v,
        None => {
            assert(empty@ =~= seq![]);
            empty.as_slice()
        },
    }
}

/// The cage that a subdivision mesh describes.
pub fn subdivision_from(q: &RibRequest) -> (r: SubdivisionReply)
    ensures
        r.arrays == subdivision_arrays(q@),
        opt_cage(r.cage) == subdivision_cage(q@),
        r.arrays ==> ast::string_views(r.unsupported@) == subdivision_tags(q@).0.unsupported,
{
    let empty: Vec<u64> = Vec::new();
    let nothing: SubdivisionReply = SubdivisionReply {
        arrays: false,
        unsupported: Vec::new(),
        cage: None,
    };
    if q.string(0).is_none() {
        return nothing;
    }
    let counts: &[u64] = match q.numbers(1) {
        Some(v) => v,
        None => {
            return nothing;
        },
    };
    let verts: &[u64] = match q.numbers(2) {
        Some(v) => v,
        None => {
            return nothing;
        },
    };
    let no_tags: Vec<String> = Vec::new();
    let mut start: usize = 3;
    let mut names: &Vec<String> = &no_tags;
    let mut nargs: &[u64] = empty.as_slice();
    let mut ints: &[u64] = empty.as_slice();
    let mut floats: &[u64] = empty.as_slice();
    if q.values.len() > 3 {
        if let RibValue::Strings(v) = &q.values[3] {
            start = 7;
            names = v;
            nargs = numbers_or_empty_exec(q, 4, &empty);
            ints = numbers_or_empty_exec(q, 5, &empty);
            floats = numbers_or_empty_exec(q, 6, &empty);
        }
    }
    proof {
        assert(empty@ =~= seq![]);
        assert(ast::string_views(no_tags@) =~= seq![]);
        assert(q.values@.len() > 3 ==> q@.values[3] == q.values@[3]@);
    }
    let tags: Tags = read_tags(names, nargs, ints, floats);
    let params = q.params_from(start);
    match params.get_numbers("P") {
        Some(p) => SubdivisionReply {
            arrays: true,
            unsupported: tags.unsupported,
            cage: Some(
                SubdivCage {
                    positions: math::to_triples(p),
                    faces: faces_of(counts, verts),
                    crease_edges: tags.creases,
                    corners: tags.corners,
                    holes: tags.holes,
                    interpolate_boundary: tags.interpolate_boundary,
                },
            ),
        },
        None => SubdivisionReply { arrays: true, unsupported: tags.unsupported, cage: None },
    }
}

// ---- patches ---------------------------------------------------------------

/// The control grid of a patch mesh.
#[derive(Debug)]
pub struct PatchMeshDef {
    /// Control points, row-major (`nu` columns by `nv` rows), as triples.
    pub points: Vec<u64>,
    pub nu: usize,
    pub nv: usize,
    pub u_wrap: bool,
    pub v_wrap: bool,
    /// The bases of a bicubic mesh; a bilinear one has none.
    pub bases: Option<(BasisUse, BasisUse)>,
}

/// What a control grid is.
pub struct PatchView {
    pub points: Seq<u64>,
    pub nu: usize,
    pub nv: usize,
    pub u_wrap: bool,
    pub v_wrap: bool,
    pub bases: Option<(BasisUse, BasisUse)>,
}

impl View for PatchMeshDef {
    type V = PatchView;

    open spec fn view(&self) -> PatchView {
        PatchView {
            points: self.points@,
            nu: self.nu,
            nv: self.nv,
            u_wrap: self.u_wrap,
            v_wrap: self.v_wrap,
            bases: self.bases,
        }
    }
}

/// The shape of a control grid and where the parameters start.
#[derive(Clone, Copy, Debug, PartialEq, Eq, Structural)]
pub struct GridShape {
    pub nu: usize,
    pub u_wrap: bool,
    pub nv: usize,
    pub v_wrap: bool,
    pub params: usize,
}

/// The grid of a `Patch` (one patch) or `PatchMesh` request.
pub open spec fn patch_shape(q: ast::RequestView) -> Option<GridShape> {
    match q.text(0) {
        None => None,
        Some(kind) => if q.name == "Patch"@ {
            let n: usize = if kind == "bilinear"@ { 2 } else { 4 };
            Some(GridShape { nu: n, u_wrap: false, nv: n, v_wrap: false, params: 1 })
        } else {
            match (q.number(1), q.number(3)) {
                (Some(nu), Some(nv)) => Some(
                    GridShape {
                        nu: count_of(nu) as usize,
                        u_wrap: q.text(2) == Some("periodic"@),
                        nv: count_of(nv) as usize,
                        v_wrap: q.text(4) == Some("periodic"@),
                        params: 5,
                    },
                ),
                _ => None,
            }
        },
    }
}

/// Whether a control grid can be diced.
pub open spec fn patch_valid(p: PatchView) -> bool {
    &&& patches::covers_grid(p.points.len(), p.nu as nat, p.nv as nat, 3)
    &&& match p.bases {
        None => p.nu >= 2 && p.nv >= 2,
        Some((u, v)) => {
            &&& p.nu >= 4 || p.u_wrap
            &&& p.nv >= 4 || p.v_wrap
            &&& patches::bicubic_spans(p.nu as nat, u.step as nat, p.u_wrap) > 0
            &&& patches::bicubic_spans(p.nv as nat, v.step as nat, p.v_wrap) > 0
        },
    }
}

/// What became of a patch request.
#[derive(Clone, Copy, Debug, PartialEq, Eq, Structural)]
pub enum PatchOutcome {
    /// It lacks its type or its grid size.
    Incomplete,
    /// It has no "P".
    NoPositions,
    /// Its type is neither bilinear nor bicubic.
    UnknownType,
    /// Its control grid cannot be diced.
    InvalidGrid,
    Built,
}

/// What becomes of a patch request under these bases, and its control grid where
/// it has one that can be diced.
pub open spec fn patch_of(q: ast::RequestView, u: BasisUse, v: BasisUse) -> (
    PatchOutcome,
    Option<PatchView>,
) {
    match patch_shape(q) {
        None => (PatchOutcome::Incomplete, None),
        Some(g) => match ast::numbers_param(q.params(g.params as int), "P"@) {
            None => (PatchOutcome::NoPositions, None),
            Some(points) => {
                let kind = q.text(0)->0;
                let bicubic = kind == "bicubic"@;
                if kind != "bilinear"@ && !bicubic {
                    (PatchOutcome::UnknownType, None)
                } else {
                    let p = PatchView {
                        points,
                        nu: g.nu,
                        nv: g.nv,
                        u_wrap: g.u_wrap,
                        v_wrap: g.v_wrap,
                        bases: if kind == "bilinear"@ { None } else { Some((u, v)) },
                    };
                    if patch_valid(p) {
                        (PatchOutcome::Built, Some(p))
                    } else {
                        (PatchOutcome::InvalidGrid, None)
                    }
                }
            },
        },
    }
}

/// What an optional control grid is.
pub open spec fn opt_patch(p: Option<PatchMeshDef>) -> Option<PatchView> {
    match p {
        Some(p) => Some(p@),
        None => None,
    }
}

fn text_is(v: Option<&str>, wanted: &str) -> (r: bool)
    ensures
        r == (ast::opt_text(v) == Some(wanted@)),
{
    match v {
        Some(s) => text::same_text(s, wanted),
        None => false,
    }
}

fn patch_shape_exec(q: &RibRequest) -> (r: Option<GridShape>)
    ensures
        r == patch_shape(q@),
{
    let kind: &str = match q.string(0) {
        Some(s) => s,
        None => {
            return None;
        },
    };
    if text::same_text(q.name.as_str(), "Patch") {
        let n: usize = if text::same_text(kind, "bilinear") { 2 } else { 4 };
        return Some(GridShape { nu: n, u_wrap: false, nv: n, v_wrap: false, params: 1 });
    }
    match (q.number(1), q.number(3)) {
        (Some(nu), Some(nv)) => Some(
            GridShape {
                nu: double::to_usize(nu),
                u_wrap: text_is(q.string(2), "periodic"),
                nv: double::to_usize(nv),
                v_wrap: text_is(q.string(4), "periodic"),
                params: 5,
            },
        ),
        _ => None,
    }
}

/// The numbers of a slice as a vector.
pub fn to_vector(v: &[u64]) -> (r: Vec<u64>)
    ensures
        r@ == v@,
{
    let mut out: Vec<u64> = Vec::new();
    let mut i: usize = 0;
    while i < v.len()
        invariant
            i <= v@.len(),
            out@ == v@.subrange(0, i as int),
        decreases v@.len() - i,
    {
        out.push(v[i]);
        i += 1;
    }
    assert(v@.subrange(0, i as int) =~= v@);
    out
}

/// What becomes of a patch request under these bases.
pub fn patch_from(q: &RibRequest, u: BasisUse, v: BasisUse) -> (r: (
    PatchOutcome,
    Option<PatchMeshDef>,
))
    ensures
        r.0 == patch_of(q@, u, v).0,
        opt_patch(r.1) == patch_of(q@, u, v).1,
{
    let g: GridShape = match patch_shape_exec(q) {
        Some(g) => g,
        None => {
            return (PatchOutcome::Incomplete, None);
        },
    };
    let params = q.params_from(g.params);
    let points: &[u64] = match params.get_numbers("P") {
        Some(p) => p,
        None => {
            return (PatchOutcome::NoPositions, None);
        },
    };
    let bilinear: bool = text_is(q.string(0), "bilinear");
    let bicubic: bool = text_is(q.string(0), "bicubic");
    if !bilinear && !bicubic {
        return (PatchOutcome::UnknownType, None);
    }
    let sized: bool = if bilinear {
        g.nu >= 2 && g.nv >= 2
    } else {
        (g.nu >= 4 || g.u_wrap) && (g.nv >= 4 || g.v_wrap) && patches::bicubic_span_count(
            g.nu,
            u.step,
            g.u_wrap,
        ) > 0 && patches::bicubic_span_count(g.nv, v.step, g.v_wrap) > 0
    };
    if sized && patches::grid_is_covered(points.len(), g.nu, g.nv, 3) {
        (
            PatchOutcome::Built,
            Some(
                PatchMeshDef {
                    points: to_vector(points),
                    nu: g.nu,
                    nv: g.nv,
                    u_wrap: g.u_wrap,
                    v_wrap: g.v_wrap,
                    bases: if bilinear { None } else { Some((u, v)) },
                },
            ),
        )
    } else {
        (PatchOutcome::InvalidGrid, None)
    }
}

/// The control data of a NURBS patch.
#[derive(Debug)]
pub struct NuPatchDef {
    pub nu: usize,
    pub uorder: usize,
    pub uknot: Vec<u64>,
    pub umin: u64,
    pub umax: u64,
    pub nv: usize,
    pub vorder: usize,
    pub vknot: Vec<u64>,
    pub vmin: u64,
    pub vmax: u64,
    /// Homogeneous control points (x y z w) when rational, else x y z.
    pub points: Vec<u64>,
    pub rational: bool,
}

/// What the control data of a NURBS patch is.
pub struct NuPatchView {
    pub nu: usize,
    pub uorder: usize,
    pub uknot: Seq<u64>,
    pub umin: u64,
    pub umax: u64,
    pub nv: usize,
    pub vorder: usize,
    pub vknot: Seq<u64>,
    pub vmin: u64,
    pub vmax: u64,
    pub points: Seq<u64>,
    pub rational: bool,
}

impl View for NuPatchDef {
    type V = NuPatchView;

    open spec fn view(&self) -> NuPatchView {
        NuPatchView {
            nu: self.nu,
            uorder: self.uorder,
            uknot: self.uknot@,
            umin: self.umin,
            umax: self.umax,
            nv: self.nv,
            vorder: self.vorder,
            vknot: self.vknot@,
            vmin: self.vmin,
            vmax: self.vmax,
            points: self.points@,
            rational: self.rational,
        }
    }
}

/// Whether a NURBS request has its ten positional arguments.
pub open spec fn nu_patch_arguments(q: ast::RequestView) -> bool {
    &&& q.number(0) is Some
    &&& q.number(1) is Some
    &&& q.numbers(2) is Some
    &&& q.number(3) is Some
    &&& q.number(4) is Some
    &&& q.number(5) is Some
    &&& q.number(6) is Some
    &&& q.numbers(7) is Some
    &&& q.number(8) is Some
    &&& q.number(9) is Some
}

/// The control points of a NURBS request, and whether they are homogeneous: "Pw"
/// wins over "P".
pub open spec fn nu_patch_points(q: ast::RequestView) -> Option<(Seq<u64>, bool)> {
    match ast::numbers_param(q.params(10), "Pw"@) {
        Some(p) => Some((p, true)),
        None => match ast::numbers_param(q.params(10), "P"@) {
            Some(p) => Some((p, false)),
            None => None,
        },
    }
}

/// What becomes of a NURBS request, and its control data where there is enough.
pub open spec fn nu_patch_of(q: ast::RequestView) -> (PatchOutcome, Option<NuPatchView>) {
    if !nu_patch_arguments(q) {
        (PatchOutcome::Incomplete, None)
    } else {
        match nu_patch_points(q) {
            None => (PatchOutcome::NoPositions, None),
            Some((points, rational)) => {
                let nu = count_of(q.number(0)->0) as usize;
                let nv = count_of(q.number(5)->0) as usize;
                if patches::covers_grid(points.len(), nu as nat, nv as nat, if rational { 4 } else { 3 }) {
                    (
                        PatchOutcome::Built,
                        Some(
                            NuPatchView {
                                nu,
                                uorder: count_of(q.number(1)->0) as usize,
                                uknot: q.numbers(2)->0,
                                umin: q.number(3)->0,
                                umax: q.number(4)->0,
                                nv,
                                vorder: count_of(q.number(6)->0) as usize,
                                vknot: q.numbers(7)->0,
                                vmin: q.number(8)->0,
                                vmax: q.number(9)->0,
                                points,
                                rational,
                            },
                        ),
                    )
                } else {
                    (PatchOutcome::InvalidGrid, None)
                }
            },
        }
    }
}

/// Whether a NURBS request carries trim curves.
pub open spec fn nu_patch_trimmed(q: ast::RequestView) -> bool {
    ast::find_param(q.params(10), "trimcurve"@) is Some
}

/// What became of a NURBS request.
#[derive(Debug)]
pub struct NuPatchReply {
    pub outcome: PatchOutcome,
    /// It carries trim curves.
    pub trimmed: bool,
    pub patch: Option<NuPatchDef>,
}

/// What the optional control data of a NURBS patch is.
pub open spec fn opt_nu_patch(p: Option<NuPatchDef>) -> Option<NuPatchView> {
    match p {
        Some(p) => Some(p@),
        None => None,
    }
}

/// What becomes of a NURBS request.
pub fn nu_patch_from(q: &RibRequest) -> (r: NuPatchReply)
    ensures
        r.outcome == nu_patch_of(q@).0,
        opt_nu_patch(r.patch) == nu_patch_of(q@).1,
        r.trimmed == nu_patch_trimmed(q@),
{
    let params = q.params_from(10);
    let trimmed: bool = params.get("trimcurve").is_some();
    match (
        q.number(0),
        q.number(1),
        q.numbers(2),
        q.number(3),
        q.number(4),
        q.number(5),
        q.number(6),
        q.numbers(7),
        q.number(8),
        q.number(9),
    ) {
        (
            Some(nu),
            Some(uorder),
            Some(uknot),
            Some(umin),
            Some(umax),
            Some(nv),
            Some(vorder),
            Some(vknot),
            Some(vmin),
            Some(vmax),
        ) => {
            let (points, rational): (&[u64], bool) = match params.get_numbers("Pw") {
                Some(p) => (p, true),
                None => match params.get_numbers("P") {
                    Some(p) => (p, false),
                    None => {
                        return NuPatchReply {
                            outcome: PatchOutcome::NoPositions,
                            trimmed,
                            patch: None,
                        };
                    },
                },
            };
            let nu: usize = double::to_usize(nu);
            let nv: usize = double::to_usize(nv);
            let stride: usize = if rational { 4 } else { 3 };
            if !patches::grid_is_covered(points.len(), nu, nv, stride) {
                return NuPatchReply { outcome: PatchOutcome::InvalidGrid, trimmed, patch: None };
            }
            NuPatchReply {
                outcome: PatchOutcome::Built,
                trimmed,
                patch: Some(
                    NuPatchDef {
                        nu,
                        uorder: double::to_usize(uorder),
                        uknot: to_vector(uknot),
                        umin,
                        umax,
                        nv,
                        vorder: double::to_usize(vorder),
                        vknot: to_vector(vknot),
                        vmin,
                        vmax,
                        points: to_vector(points),
                        rational,
                    },
                ),
            }
        },
        _ => NuPatchReply { outcome: PatchOutcome::Incomplete, trimmed, patch: None },
    }
}

// ---- general polygons, curves and points -----------------------------------

/// The points of each chain.
pub open spec fn chain_views(chains: Seq<Vec<Vec3>>) -> Seq<Seq<Vec3>> {
    chains.map_values(|c: Vec<Vec3>| c@)
}

/// The chains of points from count `k` on: count by count, from point `cursor` on
/// in a flat array of triples, as long as the array lasts.
pub open spec fn chains_from(counts: Seq<u64>, p: Seq<u64>, k: int, cursor: int) -> Seq<Seq<Vec3>>
    decreases counts.len() - k,
{
    let points = math::triples(p);
    if 0 <= k < counts.len() && cursor + count_of(counts[k]) <= points.len() {
        seq![points.subrange(cursor, cursor + count_of(counts[k]))] + chains_from(
            counts,
            p,
            k + 1,
            cursor + count_of(counts[k]),
        )
    } else {
        seq![]
    }
}

/// The chains of points that counts and a flat array of triples describe.
pub fn chains_of(counts: &[u64], p: &[u64]) -> (r: Vec<Vec<Vec3>>)
    ensures
        chain_views(r@) == chains_from(counts@, p@, 0, 0),
{
    let points: Vec<Vec3> = math::to_triples(p);
    let mut out: Vec<Vec<Vec3>> = Vec::new();
    let mut k: usize = 0;
    let mut cursor: usize = 0;
    let ghost all = chains_from(counts@, p@, 0, 0);
    assert(chain_views(out@) =~= seq![]);
    assert(all =~= Seq::<Seq<Vec3>>::empty() + all);
    while k < counts.len()
        invariant_except_break
            all == chain_views(out@) + chains_from(counts@, p@, k as int, cursor as int),
        invariant
            points@ == math::triples(p@),
            k <= counts@.len(),
            cursor <= points@.len(),
        ensures
            all == chain_views(out@),
        decreases counts@.len() - k,
    {
        let n: usize = double::to_usize(counts[k]);
        if n > points.len() - cursor {
            assert(chain_views(out@) + Seq::<Seq<Vec3>>::empty() =~= chain_views(out@));
            break;
        }
        let mut chain: Vec<Vec3> = Vec::new();
        let end: usize = cursor + n;
        let mut i: usize = cursor;
        while i < end
            invariant
                cursor <= i <= end <= points@.len(),
                chain@ == points@.subrange(cursor as int, i as int),
            decreases end - i,
        {
            chain.push(points[i]);
            i += 1;
        }
        let ghost before = chain_views(out@);
        let ghost cv = chain@;
        out.push(chain);
        proof {
            assert(chain_views(out@) =~= before.push(cv));
            let rest = chains_from(counts@, p@, k + 1, cursor + n);
            assert(before + (seq![cv] + rest) =~= before.push(cv) + rest);
        }
        cursor += n;
        k += 1;
        assert(k == counts@.len() ==> chain_views(out@) + Seq::<Seq<Vec3>>::empty() =~= chain_views(out@));
    }
    out
}

/// The loops of a general polygon: an outline of at least three points, then holes.
pub open spec fn polygon_loops(q: ast::RequestView) -> Option<Seq<Seq<Vec3>>> {
    match (q.numbers(0), ast::numbers_param(q.params(1), "P"@)) {
        (Some(counts), Some(p)) => {
            let loops = chains_from(counts, p, 0, 0);
            if loops.len() > 0 && loops[0].len() >= 3 {
                Some(loops)
            } else {
                None
            }
        },
        _ => None,
    }
}

/// Whether a general polygon has its loop sizes but no "P".
pub open spec fn loops_lack_positions(q: ast::RequestView) -> bool {
    q.numbers(0) is Some && ast::numbers_param(q.params(1), "P"@) is None
}

/// What optional chains are.
pub open spec fn opt_chains(c: Option<Vec<Vec<Vec3>>>) -> Option<Seq<Seq<Vec3>>> {
    match c {
        Some(c) => Some(chain_views(c@)),
        None => None,
    }
}

/// The loops of a general polygon, and whether it has its loop sizes but no "P".
pub fn loops_from(q: &RibRequest) -> (r: (Option<Vec<Vec<Vec3>>>, bool))
    ensures
        opt_chains(r.0) == polygon_loops(q@),
        r.1 == loops_lack_positions(q@),
{
    let counts: &[u64] = match q.numbers(0) {
        Some(v) => v,
        None => {
            return (None, false);
        },
    };
    let params = q.params_from(1);
    let p: &[u64] = match params.get_numbers("P") {
        Some(p) => p,
        None => {
            return (None, true);
        },
    };
    let loops: Vec<Vec<Vec3>> = chains_of(counts, p);
    let ghost views = chain_views(loops@);
    if loops.len() > 0 && loops[0].len() >= 3 {
        assert(views[0] == loops@[0]@);
        (Some(loops), false)
    } else {
        assert(loops@.len() > 0 ==> views[0] == loops@[0]@);
        (None, false)
    }
}

/// Strands with a width that goes from root to tip.
#[derive(Debug)]
pub struct Strands {
    pub chains: Vec<Vec<Vec3>>,
    pub width_root: u64,
    pub width_tip: u64,
    pub cubic: bool,
}

/// What strands are.
pub struct StrandsView {
    pub chains: Seq<Seq<Vec3>>,
    pub width_root: u64,
    pub width_tip: u64,
    pub cubic: bool,
}

impl View for Strands {
    type V = StrandsView;

    open spec fn view(&self) -> StrandsView {
        StrandsView {
            chains: chain_views(self.chains@),
            width_root: self.width_root,
            width_tip: self.width_tip,
            cubic: self.cubic,
        }
    }
}

/// Bits of 0.01: the width of curves that give none.
pub const DEFAULT_CURVE_WIDTH: u64 = 0x3f84_7ae1_47ae_147b;

/// Bits of 0.05: the width of points that give none.
pub const DEFAULT_POINT_WIDTH: u64 = 0x3fa9_9999_9999_999a;

/// The widths at root and tip: the ends of "width", or "constantwidth" for both.
pub open spec fn strand_widths(params: Seq<(Seq<char>, ast::ValueView)>) -> (u64, u64) {
    let constant = or_default(ast::number_param(params, "constantwidth"@), DEFAULT_CURVE_WIDTH);
    match ast::numbers_param(params, "width"@) {
        Some(w) => if w.len() > 0 {
            (w[0], w[w.len() - 1])
        } else {
            (constant, constant)
        },
        None => (constant, constant),
    }
}

/// Whether a chain is long enough to be diced: two points, or a cubic span of four.
pub open spec fn is_diceable(chain: Seq<Vec3>, cubic: bool) -> bool {
    chain.len() >= if cubic { 4int } else { 2int }
}

/// Whether any chain is long enough to be diced.
pub open spec fn any_diceable(chains: Seq<Seq<Vec3>>, cubic: bool) -> bool {
    exists|i: int| 0 <= i < chains.len() && is_diceable(#[trigger] chains[i], cubic)
}

/// The strands of a curves request, where any of them can be diced.
pub open spec fn strands_of(q: ast::RequestView) -> Option<StrandsView> {
    match (q.numbers(1), ast::numbers_param(q.params(3), "P"@)) {
        (Some(counts), Some(p)) => {
            let cubic = q.text(0) != Some("linear"@);
            let chains = chains_from(counts, p, 0, 0);
            if any_diceable(chains, cubic) {
                Some(
                    StrandsView {
                        chains,
                        width_root: strand_widths(q.params(3)).0,
                        width_tip: strand_widths(q.params(3)).1,
                        cubic,
                    },
                )
            } else {
                None
            }
        },
        _ => None,
    }
}

/// What became of a curves request.
#[derive(Debug)]
pub struct StrandsReply {
    /// It has its vertex counts.
    pub counts: bool,
    /// It asks for periodic curves.
    pub periodic: bool,
    /// It has its "P".
    pub positions: bool,
    pub strands: Option<Strands>,
}

/// What optional strands are.
pub open spec fn opt_strands(s: Option<Strands>) -> Option<StrandsView> {
    match s {
        Some(s) => Some(s@),
        None => None,
    }
}

/// What becomes of a curves request.
pub fn strands_from(q: &RibRequest) -> (r: StrandsReply)
    ensures
        r.counts == (q@.numbers(1) is Some),
        r.periodic == (q@.text(2) == Some("periodic"@)),
        r.positions == (ast::numbers_param(q@.params(3), "P"@) is Some),
        opt_strands(r.strands) == strands_of(q@),
{
    let periodic: bool = text_is(q.string(2), "periodic");
    let params = q.params_from(3);
    let p: Option<&[u64]> = params.get_numbers("P");
    let counts: Option<&[u64]> = q.numbers(1);
    let mut strands: Option<Strands> = None;
    if let Some(n) = counts {
        if let Some(points) = p {
            let cubic: bool = !text_is(q.string(0), "linear");
            let constant: u64 = number_or(&params, "constantwidth", DEFAULT_CURVE_WIDTH);
            let (width_root, width_tip): (u64, u64) = match params.get_numbers("width") {
                Some(w) => if w.len() > 0 {
                    (w[0], w[w.len() - 1])
                } else {
                    (constant, constant)
                },
                None => (constant, constant),
            };
            let chains: Vec<Vec<Vec3>> = chains_of(n, points);
            let shortest: usize = if cubic { 4 } else { 2 };
            let ghost views = chain_views(chains@);
            let mut i: usize = 0;
            let mut any: bool = false;
            while i < chains.len()
                invariant
                    i <= chains@.len(),
                    views == chain_views(chains@),
                    shortest == (if cubic { 4usize } else { 2 }),
                    any == exists|k: int| 0 <= k < i && is_diceable(#[trigger] views[k], cubic),
                decreases chains@.len() - i,
            {
                assert(views[i as int] == chains@[i as int]@);
                if chains[i].len() >= shortest {
                    any = true;
                }
                i += 1;
            }
            if any {
                strands = Some(Strands { chains, width_root, width_tip, cubic });
            }
        }
    }
    StrandsReply { counts: counts.is_some(), periodic, positions: p.is_some(), strands }
}

/// A particle: a sphere of that width.
#[derive(Clone, Copy, Debug, PartialEq, Eq, Structural)]
pub struct Particle {
    pub center: Vec3,
    pub width: u64,
}

/// The particles of a points request: each with its own "width", or the constant one.
pub open spec fn particles_of(q: ast::RequestView) -> Option<Seq<Particle>> {
    let params = q.params(0);
    match ast::numbers_param(params, "P"@) {
        None => None,
        Some(p) => {
            let constant = or_default(
                ast::number_param(params, "constantwidth"@),
                DEFAULT_POINT_WIDTH,
            );
            Some(
                Seq::new(
                    (p.len() / 3) as nat,
                    |i: int|
                        Particle {
                            center: math::triple(p, i),
                            width: match ast::numbers_param(params, "width"@) {
                                Some(w) => if i < w.len() {
                                    w[i]
                                } else {
                                    constant
                                },
                                None => constant,
                            },
                        },
                ),
            )
        },
    }
}

/// What optional particles are.
pub open spec fn opt_particles(p: Option<Vec<Particle>>) -> Option<Seq<Particle>> {
    match p {
        Some(p) => Some(p@),
        None => None,
    }
}

/// The particles of a points request.
pub fn particles_from(q: &RibRequest) -> (r: Option<Vec<Particle>>)
    ensures
        opt_particles(r) == particles_of(q@),
{
    let params = q.params_from(0);
    let p: &[u64] = match params.get_numbers("P") {
        Some(p) => p,
        None => {
            return None;
        },
    };
    let constant: u64 = number_or(&params, "constantwidth", DEFAULT_POINT_WIDTH);
    let widths: Option<&[u64]> = params.get_numbers("width");
    let centers: Vec<Vec3> = math::to_triples(p);
    let mut out: Vec<Particle> = Vec::new();
    let ghost all = particles_of(q@)->0;
    let mut i: usize = 0;
    while i < centers.len()
        invariant
            i <= centers@.len(),
            centers@ == math::triples(p@),
            ast::numbers_param(q@.params(0), "P"@) == Some(p@),
            ast::opt_numbers(widths) == ast::numbers_param(q@.params(0), "width"@),
            constant == or_default(
                ast::number_param(q@.params(0), "constantwidth"@),
                DEFAULT_POINT_WIDTH,
            ),
            all == particles_of(q@)->0,
            out@.len() == i,
            forall|k: int| 0 <= k < i ==> out@[k] == all[k],
        decreases centers@.len() - i,
    {
        let width: u64 = match widths {
            Some(w) => if i < w.len() {
                w[i]
            } else {
                constant
            },
            None => constant,
        };
        out.push(Particle { center: centers[i], width });
        i += 1;
    }
    assert(out@ =~= all);
    Some(out)
}

} // verus!
