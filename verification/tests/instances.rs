//! Strands, and placed meshes and strands.

use render_rs::arith::Op;
use render_rs::geometry::curves::{CurveEnd, CurveSegment, CurveSet};
use render_rs::geometry::instance::{to_intersection, GeomKind, Instance};
use render_rs::geometry::mesh::{Mesh, PolygonMesh, Single2, Single3};
use render_rs::math::{Matrix4, Point3, Vec3};
use render_rs::raytracer::ray::Ray;

fn f(bits: u64) -> f64 {
    f64::from_bits(bits)
}

fn b(x: f64) -> u64 {
    x.to_bits()
}

fn arithmetic(op: Op, x: u64, y: u64) -> u64 {
    let (x, y) = (f(x), f(y));
    b(match op {
        Op::Plus => x + y,
        Op::Minus => x - y,
        Op::Times => x * y,
        Op::Over => x / y,
        Op::Root => x.sqrt(),
        Op::Floor => x.floor(),
        Op::CubeRoot => x.cbrt(),
        Op::Degrees => x.atan2(y).to_degrees(),
        Op::Radians => x.to_radians(),
        Op::Sine => x.sin(),
        Op::Cosine => x.cos(),
        Op::Tangent => x.tan(),
        Op::ArcTangent => x.atan(),
        Op::Exponential => x.exp(),
        Op::Logarithm => x.ln(),
        Op::Power => x.powi(y as i32),
        Op::RealPower => x.powf(y),
    })
}

fn ray(o: [f64; 3], d: [f64; 3]) -> Ray {
    Ray::new(Point3::new(b(o[0]), b(o[1]), b(o[2])), Vec3::new(b(d[0]), b(d[1]), b(d[2])), &arithmetic)
}

fn translate(x: f64, y: f64, z: f64) -> Matrix4 {
    Matrix4::translate(b(x), b(y), b(z))
}

fn twice() -> Matrix4 {
    Matrix4::scale(b(2.0), b(2.0), b(2.0))
}

fn infinity() -> u64 {
    b(f64::INFINITY)
}

// ---- strands ---------------------------------------------------------------

fn strand(p0: [f32; 4], p1: [f32; 4]) -> CurveSet {
    let end = |p: [f32; 4]| CurveEnd {
        x: p[0].to_bits(),
        y: p[1].to_bits(),
        z: p[2].to_bits(),
        radius: p[3].to_bits(),
    };
    let segment =
        CurveSegment { p0: end(p0), p1: end(p1), v0: 0f32.to_bits(), v1: 1f32.to_bits() };
    CurveSet::new(vec![segment], &arithmetic)
}

#[test]
fn capsule_hit_and_normal() {
    // Horizontal segment along x at origin, radius 0.5 both ends.
    let set = strand([-1.0, 0.0, 0.0, 0.5], [1.0, 0.0, 0.0, 0.5]);
    let meet = |o: [f64; 3]| {
        set.intersect_segment(&ray(o, [0.0, 0.0, 1.0]), 0, infinity(), &arithmetic)
    };
    let hit = meet([0.2, 0.0, -5.0]).expect("hit");
    assert!((f(hit.t) - 4.5).abs() < 1e-9, "t = {}", f(hit.t));
    assert!(f(hit.normal.z) < -0.99);
    assert!(f(hit.tangent.x).abs() > 0.99);
    assert!(f(hit.v) > 0.5 && f(hit.v) < 0.7, "v = {}", f(hit.v));
    // Cap hit past the end.
    let cap = meet([1.4, 0.0, -5.0]).expect("cap hit");
    assert!(f(cap.normal.x) > 0.3);
    // Clean miss.
    assert!(meet([0.0, 2.0, -5.0]).is_none());
}

#[test]
fn tapered_cone_radius() {
    // Radius 0.5 -> 0.1: at x=0 the surface sits near y ~ 0.3.
    let set = strand([-1.0, 0.0, 0.0, 0.5], [1.0, 0.0, 0.0, 0.1]);
    let r = ray([0.0, 5.0, 0.0], [0.0, -1.0, 0.0]);
    let hit = set.intersect_segment(&r, 0, infinity(), &arithmetic).expect("hit");
    let y = 5.0 - f(hit.t);
    assert!(y > 0.25 && y < 0.36, "surface at y = {y}");
}

#[test]
fn point_particle_is_sphere() {
    let set = strand([0.0, 0.0, 5.0, 0.25], [0.0, 0.0, 5.0, 0.25]);
    let r = ray([0.0; 3], [0.0, 0.0, 1.0]);
    let hit = set.intersect_segment(&r, 0, infinity(), &arithmetic).expect("hit");
    assert!((f(hit.t) - 4.75).abs() < 1e-9, "t = {}", f(hit.t));
    assert!(f(hit.normal.z) < -0.99);
}

// ---- instances -------------------------------------------------------------

fn mesh(positions: &[[f32; 3]], indices: Vec<u32>, st: Option<Vec<Single2>>) -> Mesh {
    let positions = positions
        .iter()
        .map(|p| Single3 { x: p[0].to_bits(), y: p[1].to_bits(), z: p[2].to_bits() })
        .collect();
    let shape = PolygonMesh { positions, indices, normals: None, st, positions1: None };
    Mesh::with_motion(shape, &arithmetic)
}

/// Unit cube centered at origin.
fn cube() -> Mesh {
    let positions = [
        [-1.0, -1.0, -1.0],
        [1.0, -1.0, -1.0],
        [1.0, 1.0, -1.0],
        [-1.0, 1.0, -1.0],
        [-1.0, -1.0, 1.0],
        [1.0, -1.0, 1.0],
        [1.0, 1.0, 1.0],
        [-1.0, 1.0, 1.0],
    ];
    let quads: [[u32; 4]; 6] = [
        [0, 1, 2, 3],
        [5, 4, 7, 6],
        [4, 0, 3, 7],
        [1, 5, 6, 2],
        [3, 2, 6, 7],
        [4, 5, 1, 0],
    ];
    let mut indices = Vec::new();
    for q in quads {
        indices.extend_from_slice(&[q[0], q[1], q[2], q[0], q[2], q[3]]);
    }
    mesh(&positions, indices, None)
}

#[test]
fn cube_instance_hits() {
    let meshes = vec![cube()];
    let inst = Instance::new(0, 0, translate(0.0, 0.0, 5.0), &meshes[0], &arithmetic);
    let r = ray([0.0; 3], [0.0, 0.0, 1.0]);
    let hit = inst.intersect(&meshes, &Vec::new(), &r, infinity(), &arithmetic).expect("hit");
    assert!((f(hit.t_param) - 4.0).abs() < 1e-9, "t = {}", f(hit.t_param));
    let isect = to_intersection(&hit, &r, 0, &arithmetic);
    assert!((f(isect.t) - 4.0).abs() < 1e-9);
    assert!(f(isect.normal.z) < -0.99);
}

#[test]
fn scaled_instance_t_is_world() {
    let meshes = vec![cube()];
    // Scale 2x: front face lands at z = 5 - 2 = 3.
    let xf = translate(0.0, 0.0, 5.0).multiply(&twice(), &arithmetic);
    let inst = Instance::new(0, 0, xf, &meshes[0], &arithmetic);
    let r = ray([0.0; 3], [0.0, 0.0, 1.0]);
    let hit = inst.intersect(&meshes, &Vec::new(), &r, infinity(), &arithmetic).expect("hit");
    assert!((f(hit.t_param) - 3.0).abs() < 1e-9, "t = {}", f(hit.t_param));
}

#[test]
fn st_interpolates_and_density_scales() {
    // Unit quad in xy with st == xy: density 1 in local space.
    let positions = [[0.0, 0.0, 0.0], [1.0, 0.0, 0.0], [1.0, 1.0, 0.0], [0.0, 1.0, 0.0]];
    let st = [[0.0f32, 0.0], [1.0, 0.0], [1.0, 1.0], [0.0, 1.0]]
        .iter()
        .map(|p| Single2 { s: p[0].to_bits(), t: p[1].to_bits() })
        .collect();
    let meshes = vec![mesh(&positions, vec![0, 1, 2, 0, 2, 3], Some(st))];
    // Scale 2x: st density halves in world space.
    let inst = Instance::new(0, 0, twice(), &meshes[0], &arithmetic);
    let r = ray([0.5, 1.0, -3.0], [0.0, 0.0, 1.0]);
    let hit = inst.intersect(&meshes, &Vec::new(), &r, infinity(), &arithmetic).expect("hit");
    assert!((f(hit.st.0) - 0.25).abs() < 1e-6, "s = {}", f(hit.st.0));
    assert!((f(hit.st.1) - 0.5).abs() < 1e-6, "t = {}", f(hit.st.1));
    assert!((f(hit.st_density) - 0.5).abs() < 1e-6, "density = {}", f(hit.st_density));
}

#[test]
fn occlusion_respects_limit() {
    let meshes = vec![cube()];
    let inst = Instance::new(0, 0, translate(0.0, 0.0, 5.0), &meshes[0], &arithmetic);
    let r = ray([0.0; 3], [0.0, 0.0, 1.0]);
    let occludes = |limit: f64| inst.occludes(&meshes, &Vec::new(), &r, b(limit), &arithmetic);
    assert!(occludes(10.0));
    assert!(!occludes(3.5));
}

#[test]
fn placed_strands() {
    let sets = vec![strand([-1.0, 0.0, 0.0, 0.5], [1.0, 0.0, 0.0, 0.5])];
    let at = translate(0.0, 0.0, 5.0);
    let inst = Instance::new_curves(0, 3, at, None, &sets[0], &arithmetic);
    assert_eq!((inst.kind, inst.material_id), (GeomKind::Curves, 3));
    assert_eq!(f(inst.world_bounds.min.z), 4.5);
    let r = ray([0.0; 3], [0.0, 0.0, 1.0]);
    let hit = inst.intersect(&Vec::new(), &sets, &r, infinity(), &arithmetic).expect("hit");
    assert!((f(hit.t_param) - 4.5).abs() < 1e-9);
    assert!(inst.occludes(&Vec::new(), &sets, &r, b(10.0), &arithmetic));
    assert!(!inst.occludes(&Vec::new(), &sets, &r, b(4.0), &arithmetic));
}

#[test]
fn moving_instances_are_met_where_they_are() {
    let meshes = vec![cube()];
    let (open, close) = (translate(0.0, 0.0, 5.0), translate(4.0, 0.0, 5.0));
    let inst = Instance::with_motion(0, 0, open, Some(close), &meshes[0], &arithmetic);
    assert_eq!((f(inst.world_bounds.min.x), f(inst.world_bounds.max.x)), (-1.0, 5.0));
    let mut r = ray([0.0; 3], [0.0, 0.0, 1.0]);
    assert!(inst.intersect(&meshes, &Vec::new(), &r, infinity(), &arithmetic).is_some());
    r.time = b(1.0);
    assert!(inst.intersect(&meshes, &Vec::new(), &r, infinity(), &arithmetic).is_none());
}
