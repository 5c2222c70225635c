//! Built-in displacement: gradient noise on a lattice, octaves of it, and a mesh moved by
//! them along its normals. Which gradient stands at a lattice point depends on the point
//! alone.

use crate::arith;
use crate::arith::{
    add_vectors, compute, computes, minus, multiply_vector, plus, subtract_vectors, times, Op,
};
use crate::double;
use crate::geometry::mesh::{PolygonMesh, PolygonMeshView, Single3};
use crate::geometry::normals;
use crate::geometry::normals::{narrow_triple, smooth_normals, widen_triple};
use crate::math::{Vec3, ONE, ZERO};
use crate::parser::scene::DisplaceParams;
use vstd::prelude::*;

verus! {

/// Multipliers of the hash.
pub const MIX_A: i64 = -7046029254386353131;

pub const MIX_B: i64 = -4658895280553007687;

/// The hash of a lattice key.
pub open spec fn hashed(x: i64) -> u32 {
    let a = vstd::wrapping::i64_specs::wrapping_mul(x, MIX_A);
    let b = a ^ (a >> 29i64);
    let c = vstd::wrapping::i64_specs::wrapping_mul(b, MIX_B);
    (c ^ (c >> 32i64)) as u32
}

/// The hash of a lattice key.
fn hash(x: i64) -> (r: u32)
    ensures
        r == hashed(x),
{
    let a: i64 = x.wrapping_mul(MIX_A);
    let b: i64 = a ^ (a >> 29i64);
    let c: i64 = b.wrapping_mul(MIX_B);
    #[verifier::truncate] ((c ^ (c >> 32i64)) as u32)
}

/// The key of a lattice point.
pub open spec fn lattice_key(ix: i64, iy: i64, iz: i64) -> i64 {
    vstd::wrapping::i64_specs::wrapping_mul(ix, 73856093)
        ^ vstd::wrapping::i64_specs::wrapping_mul(iy, 19349663)
        ^ vstd::wrapping::i64_specs::wrapping_mul(iz, 83492791)
}

/// The direction to the middle of one of the twelve edges of a cube around the origin.
pub open spec fn edge_direction(n: int) -> (i8, i8, i8) {
    let s = if n % 2 == 0 {
        1i8
    } else {
        -1i8
    };
    let t = if n % 4 < 2 {
        1i8
    } else {
        -1i8
    };
    if n < 4 {
        (s, t, 0)
    } else if n < 8 {
        (s, 0, t)
    } else {
        (0, s, t)
    }
}

/// The gradient at a lattice point.
pub fn gradient(ix: i64, iy: i64, iz: i64) -> (r: (i8, i8, i8))
    ensures
        r == edge_direction(hashed(lattice_key(ix, iy, iz)) as int % 12),
{
    let key: i64 = ix.wrapping_mul(73856093) ^ iy.wrapping_mul(19349663) ^ iz.wrapping_mul(
        83492791,
    );
    let n: u32 = hash(key) % 12;
    let s: i8 = if n % 2 == 0 {
        1
    } else {
        -1
    };
    let t: i8 = if n % 4 < 2 {
        1
    } else {
        -1
    };
    if n < 4 {
        (s, t, 0)
    } else if n < 8 {
        (s, 0, t)
    } else {
        (0, s, t)
    }
}

// ---- noise -----------------------------------------------------------------

pub const MINUS_ONE: u64 = 0xbff0_0000_0000_0000;

pub const SIX: u64 = 0x4018_0000_0000_0000;

pub const TEN: u64 = 0x4024_0000_0000_0000;

pub const FIFTEEN: u64 = 0x402e_0000_0000_0000;

/// The double of a component of a gradient.
pub open spec fn component(n: i8) -> u64 {
    if n > 0 {
        ONE
    } else if n < 0 {
        MINUS_ONE
    } else {
        ZERO
    }
}

fn component_double(n: i8) -> (r: u64)
    ensures
        r == component(n),
{
    if n > 0 {
        ONE
    } else if n < 0 {
        MINUS_ONE
    } else {
        ZERO
    }
}

/// The corner of a unit cube with this number: a bit for each axis, x first.
pub open spec fn cube_corner(k: int) -> (i8, i8, i8) {
    ((k % 2) as i8, (k / 2 % 2) as i8, (k / 4 % 2) as i8)
}

/// The lattice coordinate one step on, or not.
pub open spec fn stepped(i: i64, step: i8) -> i64 {
    vstd::wrapping::i64_specs::wrapping_add(i, step as i64)
}

/// The share of a corner of the cell at `cell`: its gradient along the way from the corner
/// to the point at `at` in the cell.
pub open spec fn corner_share<F: Fn(Op, u64, u64) -> u64>(
    f: F,
    cell: (i64, i64, i64),
    at: Vec3,
    k: int,
) -> u64 {
    let c = cube_corner(k);
    let key = lattice_key(stepped(cell.0, c.0), stepped(cell.1, c.1), stepped(cell.2, c.2));
    let g = edge_direction(hashed(key) as int % 12);
    let d = arith::vector_difference(
        f,
        at,
        Vec3::of(component(c.0), component(c.1), component(c.2)),
    );
    arith::sum(
        f,
        arith::sum(
            f,
            arith::product(f, component(g.0), d.x),
            arith::product(f, component(g.1), d.y),
        ),
        arith::product(f, component(g.2), d.z),
    )
}

/// The weight that fades in without a kink.
pub open spec fn fade<F: Fn(Op, u64, u64) -> u64>(f: F, t: u64) -> u64 {
    let cube = arith::product(f, arith::product(f, t, t), t);
    let inner = arith::difference(f, arith::product(f, t, SIX), FIFTEEN);
    arith::product(f, cube, arith::sum(f, arith::product(f, t, inner), TEN))
}

/// Part of the way from one number to another.
pub open spec fn mixed<F: Fn(Op, u64, u64) -> u64>(f: F, a: u64, b: u64, t: u64) -> u64 {
    arith::sum(f, a, arith::product(f, arith::difference(f, b, a), t))
}

/// The largest whole numbers that are not above those of a point.
pub open spec fn floors<F: Fn(Op, u64, u64) -> u64>(f: F, p: Vec3) -> Vec3 {
    Vec3::of(
        arith::value(f, Op::Floor, p.x, 0),
        arith::value(f, Op::Floor, p.y, 0),
        arith::value(f, Op::Floor, p.z, 0),
    )
}

/// Gradient noise: the shares of the eight lattice points around, mixed by how near they
/// are, along x first.
pub open spec fn noise<F: Fn(Op, u64, u64) -> u64>(f: F, p: Vec3) -> u64 {
    let low = floors(f, p);
    let at = arith::vector_difference(f, p, low);
    let cell = (
        double::cut_signed(low.x) as i64,
        double::cut_signed(low.y) as i64,
        double::cut_signed(low.z) as i64,
    );
    let u = fade(f, at.x);
    let v = fade(f, at.y);
    let near = mixed(
        f,
        mixed(f, corner_share(f, cell, at, 0), corner_share(f, cell, at, 1), u),
        mixed(f, corner_share(f, cell, at, 2), corner_share(f, cell, at, 3), u),
        v,
    );
    let far = mixed(
        f,
        mixed(f, corner_share(f, cell, at, 4), corner_share(f, cell, at, 5), u),
        mixed(f, corner_share(f, cell, at, 6), corner_share(f, cell, at, 7), u),
        v,
    );
    mixed(f, near, far, fade(f, at.z))
}

fn share<F: Fn(Op, u64, u64) -> u64>(f: &F, cell: (i64, i64, i64), at: Vec3, k: u8) -> (r: u64)
    requires
        computes(*f),
        k < 8,
    ensures
        r == corner_share(*f, cell, at, k as int),
{
    let x: i8 = (k % 2) as i8;
    let y: i8 = (k / 2 % 2) as i8;
    let z: i8 = (k / 4 % 2) as i8;
    let g: (i8, i8, i8) = gradient(
        cell.0.wrapping_add(x as i64),
        cell.1.wrapping_add(y as i64),
        cell.2.wrapping_add(z as i64),
    );
    let corner: Vec3 = Vec3::new(component_double(x), component_double(y), component_double(z));
    let d: Vec3 = subtract_vectors(f, at, corner);
    plus(
        f,
        plus(f, times(f, component_double(g.0), d.x), times(f, component_double(g.1), d.y)),
        times(f, component_double(g.2), d.z),
    )
}

fn fade_in<F: Fn(Op, u64, u64) -> u64>(f: &F, t: u64) -> (r: u64)
    requires
        computes(*f),
    ensures
        r == fade(*f, t),
{
    let cube: u64 = times(f, times(f, t, t), t);
    let inner: u64 = minus(f, times(f, t, SIX), FIFTEEN);
    times(f, cube, plus(f, times(f, t, inner), TEN))
}

fn mix<F: Fn(Op, u64, u64) -> u64>(f: &F, a: u64, b: u64, t: u64) -> (r: u64)
    requires
        computes(*f),
    ensures
        r == mixed(*f, a, b, t),
{
    plus(f, a, times(f, minus(f, b, a), t))
}

/// Gradient noise at a point.
pub fn perlin<F: Fn(Op, u64, u64) -> u64>(p: Vec3, f: &F) -> (r: u64)
    requires
        computes(*f),
    ensures
        r == noise(*f, p),
{
    let low: Vec3 = Vec3::new(
        compute(f, Op::Floor, p.x, 0),
        compute(f, Op::Floor, p.y, 0),
        compute(f, Op::Floor, p.z, 0),
    );
    let at: Vec3 = subtract_vectors(f, p, low);
    let cell: (i64, i64, i64) = (double::to_i64(low.x), double::to_i64(low.y), double::to_i64(low.z));
    let u: u64 = fade_in(f, at.x);
    let v: u64 = fade_in(f, at.y);
    let near: u64 = mix(
        f,
        mix(f, share(f, cell, at, 0), share(f, cell, at, 1), u),
        mix(f, share(f, cell, at, 2), share(f, cell, at, 3), u),
        v,
    );
    let far: u64 = mix(
        f,
        mix(f, share(f, cell, at, 4), share(f, cell, at, 5), u),
        mix(f, share(f, cell, at, 6), share(f, cell, at, 7), u),
        v,
    );
    mix(f, near, far, fade_in(f, at.z))
}

// ---- octaves ---------------------------------------------------------------

/// How far octaves have come: the sum so far, and the amplitude and the frequency of the
/// next one.
pub struct Octave {
    pub total: u64,
    pub amplitude: u64,
    pub frequency: u64,
}

/// What the first `k` octaves come to at a point.
pub open spec fn octaves_of<F: Fn(Op, u64, u64) -> u64>(
    f: F,
    p: Vec3,
    d: DisplaceParams,
    k: int,
) -> Octave
    decreases k,
{
    if k <= 0 {
        Octave { total: ZERO, amplitude: ONE, frequency: d.frequency }
    } else {
        let before = octaves_of(f, p, d, k - 1);
        let place = arith::vector_sum(
            f,
            arith::vector_multiple(f, p, before.frequency),
            d.offset,
        );
        Octave {
            total: arith::sum(
                f,
                before.total,
                arith::product(f, before.amplitude, noise(f, place)),
            ),
            amplitude: arith::product(f, before.amplitude, d.gain),
            frequency: arith::product(f, before.frequency, d.lacunarity),
        }
    }
}

/// Octaves of noise at a point: as many as asked for, but at least one.
pub open spec fn fractal<F: Fn(Op, u64, u64) -> u64>(f: F, p: Vec3, d: DisplaceParams) -> u64 {
    octaves_of(
        f,
        p,
        d,
        if d.octaves == 0 {
            1
        } else {
            d.octaves as int
        },
    ).total
}

/// Octaves of noise at a point.
pub fn fbm<F: Fn(Op, u64, u64) -> u64>(p: Vec3, d: &DisplaceParams, f: &F) -> (r: u64)
    requires
        computes(*f),
    ensures
        r == fractal(*f, p, *d),
{
    let n: u32 = if d.octaves == 0 {
        1
    } else {
        d.octaves
    };
    let mut here: Octave = Octave { total: ZERO, amplitude: ONE, frequency: d.frequency };
    let mut k: u32 = 0;
    while k < n
        invariant
            k <= n,
            computes(*f),
            here == octaves_of(*f, p, *d, k as int),
        decreases n - k,
    {
        let place: Vec3 = add_vectors(f, multiply_vector(f, p, here.frequency), d.offset);
        here = Octave {
            total: plus(f, here.total, times(f, here.amplitude, perlin(place, f))),
            amplitude: times(f, here.amplitude, d.gain),
            frequency: times(f, here.frequency, d.lacunarity),
        };
        k += 1;
    }
    here.total
}

// ---- meshes ----------------------------------------------------------------

/// A vertex moved along its normal by the noise at its place.
pub open spec fn moved<F: Fn(Op, u64, u64) -> u64>(
    f: F,
    p: Single3,
    n: Single3,
    d: DisplaceParams,
) -> Single3 {
    let at = normals::widened_triple(p);
    let far = arith::product(f, fractal(f, at, d), d.amplitude);
    normals::single_triple(
        arith::vector_sum(f, at, arith::vector_multiple(f, normals::widened_triple(n), far)),
    )
}

/// The normals that a mesh is moved along: its own, or else smooth ones.
pub open spec fn base_normals<F: Fn(Op, u64, u64) -> u64>(f: F, m: PolygonMeshView) -> Seq<Single3> {
    match m.normals {
        Some(n) => n,
        None => normals::vertex_normals(f, m.positions, m.indices),
    }
}

/// The vertices of a mesh, moved; those that have a normal.
pub open spec fn moved_positions<F: Fn(Op, u64, u64) -> u64>(
    f: F,
    m: PolygonMeshView,
    d: DisplaceParams,
) -> Seq<Single3> {
    let along = base_normals(f, m);
    Seq::new(
        if along.len() < m.positions.len() {
            along.len()
        } else {
            m.positions.len()
        },
        |i: int| moved(f, m.positions[i], along[i], d),
    )
}

/// A displaced mesh: its vertices moved, its normals those of the moved surface. It is at
/// rest.
pub open spec fn displaced<F: Fn(Op, u64, u64) -> u64>(
    f: F,
    m: PolygonMeshView,
    d: DisplaceParams,
) -> PolygonMeshView {
    let positions = moved_positions(f, m, d);
    PolygonMeshView {
        positions,
        indices: m.indices,
        normals: Some(normals::vertex_normals(f, positions, m.indices)),
        st: m.st,
        positions1: None,
    }
}

/// Displaces the vertices of a mesh along their normals.
pub fn displace_mesh<F: Fn(Op, u64, u64) -> u64>(
    mesh: PolygonMesh,
    d: &DisplaceParams,
    f: &F,
) -> (r: PolygonMesh)
    requires
        computes(*f),
        normals::names_vertices(mesh@.indices, mesh@.positions.len() as int),
        mesh@.normals matches Some(n) ==> normals::names_vertices(
            mesh@.indices,
            n.len() as int,
        ),
    ensures
        r@ == displaced(*f, mesh@, *d),
{
    let ghost before = mesh@;
    let along: Vec<Single3> = match mesh.normals {
        Some(n) => n,
        None => smooth_normals(&mesh.positions, &mesh.indices, f),
    };
    let n: usize = if along.len() < mesh.positions.len() {
        along.len()
    } else {
        mesh.positions.len()
    };
    let mut positions: Vec<Single3> = Vec::new();
    let mut i: usize = 0;
    while i < n
        invariant
            i <= n,
            n <= along@.len(),
            n <= mesh.positions@.len(),
            computes(*f),
            positions@.len() == i,
            forall|k: int|
                0 <= k < i ==> #[trigger] positions@[k] == moved(
                    *f,
                    mesh.positions@[k],
                    along@[k],
                    *d,
                ),
        decreases n - i,
    {
        let at: Vec3 = widen_triple(mesh.positions[i]);
        let far: u64 = times(f, fbm(at, d, f), d.amplitude);
        let to: Vec3 = add_vectors(f, at, multiply_vector(f, widen_triple(along[i]), far));
        positions.push(narrow_triple(to));
        i += 1;
    }
    assert(positions@ =~= moved_positions(*f, before, *d));
    let lit: Vec<Single3> = smooth_normals(&positions, &mesh.indices, f);
    PolygonMesh {
        positions,
        indices: mesh.indices,
        normals: Some(lit),
        st: mesh.st,
        positions1: None,
    }
}

// ---- laws ------------------------------------------------------------------

/// Displacing keeps which triangles there are and their parameters; a mesh with a normal
/// for each vertex keeps its vertices, each with a normal.
pub proof fn displacing_keeps_the_triangles<F: Fn(Op, u64, u64) -> u64>(
    f: F,
    m: PolygonMeshView,
    d: DisplaceParams,
)
    requires
        m.normals matches Some(n) ==> n.len() == m.positions.len(),
    ensures
        displaced(f, m, d).indices == m.indices,
        displaced(f, m, d).st == m.st,
        displaced(f, m, d).positions.len() == m.positions.len(),
        displaced(f, m, d).normals matches Some(n) && n.len() == m.positions.len(),
{
}

/// A gradient has two components of length one and one of zero.
pub proof fn gradients_are_edges(n: int)
    requires
        0 <= n < 12,
    ensures
        ({
            let g = edge_direction(n);
            g.0 * g.0 + g.1 * g.1 + g.2 * g.2 == 2
        }),
{
}

} // verus!
