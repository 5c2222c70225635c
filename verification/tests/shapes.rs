use render_rs::accel::bvh::{Aabb, Bvh, Split};
use render_rs::accel::sah::plan_split;
use render_rs::arith::Op;
use render_rs::geometry::curves::{
    dice_curve, dice_parts, joints, particle_segments, push_curve, CurveSegment, CurveSet,
};
use render_rs::geometry::displace;
use render_rs::geometry::displace::{displace_mesh, fbm, gradient};
use render_rs::geometry::earclip::{loops_mesh, triangulate_with_holes};
use render_rs::geometry::hits::LocalRay;
use render_rs::geometry::mesh::{box_corners, join_boxes, Mesh, PolygonMesh, Single2, Single3};
use render_rs::geometry::normals::smooth_normals;
use render_rs::geometry::patches;
use render_rs::geometry::patches::{
    basis_by_name, bicubic_span_count, bilinear_span_count, controls, dice_segments,
    grid_is_covered, knot_span, nurbs_segments, tessellate_bicubic, tessellate_bilinear,
    tessellate_nurbs, Basis,
};
use render_rs::geometry::splines::{
    basis_weights, bicubic_mesh, bilinear_mesh, bspline_basis, eval_nurbs, named_matrix, nurbs_mesh,
};
use render_rs::geometry::subdiv::{Corner, Crease, EdgeKey, PointRule, SubdivCage};
use render_rs::math::Vec3;
use render_rs::parser::requests::{NuPatchDef, Particle, PatchMeshDef};
use render_rs::parser::scene::DisplaceParams;

type P3 = [f64; 3];

fn f(bits: u64) -> f64 {
    f64::from_bits(bits)
}

fn arithmetic(op: Op, a: u64, b: u64) -> u64 {
    let (x, y) = (f(a), f(b));
    let r = match op {
        Op::Plus => x + y,
        Op::Minus => x - y,
        Op::Times => x * y,
        Op::Over => x / y,
        Op::Root => x.sqrt(),
        Op::Floor => x.floor(),
        Op::CubeRoot => x.cbrt(),
        Op::Degrees => x.atan2(y).to_degrees(),
        Op::Radians => x.to_radians(),
        Op::Sine => x.sin(),
        Op::Cosine => x.cos(),
        Op::Tangent => x.tan(),
        Op::ArcTangent => x.atan(),
        Op::Exponential => x.exp(),
        Op::Logarithm => x.ln(),
        Op::Power => x.powi(y as i32),
        Op::RealPower => x.powf(y),
    };
    r.to_bits()
}

fn singles(v: &Single3) -> [f32; 3] {
    [f32::from_bits(v.x), f32::from_bits(v.y), f32::from_bits(v.z)]
}

fn bits(v: &[f64]) -> Vec<u64> {
    v.iter().map(|x| x.to_bits()).collect()
}

fn vec3(p: P3) -> Vec3 {
    Vec3::new(p[0].to_bits(), p[1].to_bits(), p[2].to_bits())
}

fn p3(v: Vec3) -> P3 {
    [f(v.x), f(v.y), f(v.z)]
}

fn sub(a: P3, b: P3) -> P3 {
    [a[0] - b[0], a[1] - b[1], a[2] - b[2]]
}

fn plus(a: P3, b: P3) -> P3 {
    [a[0] + b[0], a[1] + b[1], a[2] + b[2]]
}

fn times(a: P3, s: f64) -> P3 {
    [a[0] * s, a[1] * s, a[2] * s]
}

fn dot(a: P3, b: P3) -> f64 {
    a[0] * b[0] + a[1] * b[1] + a[2] * b[2]
}

fn cross(a: P3, b: P3) -> P3 {
    [
        a[1] * b[2] - a[2] * b[1],
        a[2] * b[0] - a[0] * b[2],
        a[0] * b[1] - a[1] * b[0],
    ]
}

// ---- hierarchies -----------------------------------------------------------

fn ray_tri(origin: P3, direction: P3, tri: &[P3; 3]) -> Option<f64> {
    let e1 = sub(tri[1], tri[0]);
    let e2 = sub(tri[2], tri[0]);
    let p = cross(direction, e2);
    let det = dot(e1, p);
    if det.abs() < 1e-12 {
        return None;
    }
    let inv = 1.0 / det;
    let tv = sub(origin, tri[0]);
    let u = dot(tv, p) * inv;
    if !(0.0..=1.0).contains(&u) {
        return None;
    }
    let q = cross(tv, e1);
    let v = dot(direction, q) * inv;
    if v < 0.0 || u + v > 1.0 {
        return None;
    }
    let t = dot(e2, q) * inv;
    if t > 1e-9 {
        Some(t)
    } else {
        None
    }
}

fn tri_box(t: &[P3; 3]) -> Aabb {
    Aabb::from_points(&t.iter().map(|p| vec3(*p)).collect())
}

fn hierarchy(boxes: &Vec<Aabb>) -> Bvh {
    Bvh::build(boxes, &arithmetic)
}

fn inverse(d: P3) -> Vec3 {
    vec3([1.0 / d[0], 1.0 / d[1], 1.0 / d[2]])
}

#[test]
fn bvh_matches_brute_force() {
    let mut state = 0x12345678u64;
    let mut rnd = || {
        state = state.wrapping_mul(6364136223846793005).wrapping_add(1442695040888963407);
        ((state >> 11) as f64 / (1u64 << 53) as f64) * 8.0 - 4.0
    };
    let tris: Vec<[P3; 3]> = (0..500)
        .map(|_| {
            let base = [rnd(), rnd(), rnd()];
            [
                base,
                [base[0] + rnd() * 0.2, base[1] + rnd() * 0.2, base[2] + rnd() * 0.2],
                [base[0] + rnd() * 0.2, base[1] + rnd() * 0.2, base[2] + rnd() * 0.2],
            ]
        })
        .collect();
    let bvh = hierarchy(&tris.iter().map(tri_box).collect());
    for _ in 0..2000 {
        let origin = [rnd(), rnd(), rnd()];
        let d = [rnd(), rnd(), rnd()];
        let length = dot(d, d).sqrt();
        if length < 1e-6 {
            continue;
        }
        let direction = times(d, 1.0 / length);
        let mut brute: Option<(usize, f64)> = None;
        for (i, tri) in tris.iter().enumerate() {
            if let Some(t) = ray_tri(origin, direction, tri) {
                if brute.map_or(true, |(_, bt)| t < bt) {
                    brute = Some((i, t));
                }
            }
        }
        let (from, slope) = (vec3(origin), inverse(direction));
        let hit_box = |b: Aabb, t: u64| b.hit(&from, &slope, t, &arithmetic);
        let hit_prim = |p: u32, t_max: u64| {
            ray_tri(origin, direction, &tris[p as usize])
                .filter(|t| *t < f(t_max))
                .map(f64::to_bits)
        };
        let bvh_hit = bvh.traverse(f64::INFINITY.to_bits(), &hit_box, &hit_prim);
        match (brute, bvh_hit) {
            (None, None) => {}
            (Some((bi, bt)), Some((vi, vt))) => {
                assert!((bt - f(vt)).abs() < 1e-9, "t mismatch: {bt} vs {}", f(vt));
                assert_eq!(bi as u32, vi, "prim mismatch");
            }
            other => panic!("hit disagreement: {other:?}"),
        }
    }
}

#[test]
fn empty_hierarchies_are_never_hit() {
    let bvh = hierarchy(&Vec::new());
    let hit_box = |_: Aabb, _: u64| Some(0u64);
    assert!(bvh.traverse(f64::INFINITY.to_bits(), &hit_box, &|_: u32, t: u64| Some(t)).is_none());
    assert!(!bvh.any_hit(f64::INFINITY.to_bits(), &hit_box, &|_: u32, _: u64| true));
}

#[test]
fn nodes_and_slots_of_a_hierarchy() {
    let boxes: Vec<Aabb> = (0..40)
        .map(|i| {
            let x = (i * 17 % 40) as f64;
            Aabb::from_points(&vec![vec3([x, 0.0, -x]), vec3([x + 0.5, 1.0, 2.0])])
        })
        .collect();
    let bvh = hierarchy(&boxes);
    let (nodes, order) = (bvh.node_views(), bvh.prim_order());
    let mut parents = vec![0; nodes.len()];
    let mut leaves = vec![0; order.len()];
    for n in nodes {
        let first = n.first as usize;
        if n.count == 0 {
            parents[first] += 1;
            parents[first + 1] += 1;
        } else {
            let mut least = Aabb::empty();
            for s in first..first + n.count as usize {
                leaves[s] += 1;
                least.grow(&boxes[order[s] as usize]);
            }
            assert_eq!((p3(n.bounds.min), p3(n.bounds.max)), (p3(least.min), p3(least.max)));
        }
    }
    assert_eq!(parents[0], 0);
    assert!(parents[1..].iter().all(|n| *n == 1));
    assert!(leaves.iter().all(|n| *n == 1));
    let root = bvh.root_bounds().unwrap();
    assert_eq!((p3(root.min), p3(root.max)), ([0.0, 0.0, -39.0], [39.5, 1.0, 2.0]));
    // Grown in the other direction the box is the same.
    let mut back = Aabb::empty();
    for b in boxes.iter().rev() {
        back.grow(b);
    }
    assert_eq!((p3(root.min), p3(root.max)), (p3(back.min), p3(back.max)));
}

#[test]
fn any_hit_agrees() {
    let tris = [[[-1.0, -1.0, 5.0], [1.0, -1.0, 5.0], [0.0, 1.0, 5.0]]];
    let bvh = hierarchy(&tris.iter().map(tri_box).collect());
    let (origin, direction) = ([0.0; 3], [0.0, 0.0, 1.0]);
    let (from, slope) = (vec3(origin), inverse(direction));
    let hit_box = |b: Aabb, t: u64| b.hit(&from, &slope, t, &arithmetic);
    let hit_prim = |p: u32, limit: u64| {
        ray_tri(origin, direction, &tris[p as usize]).map_or(false, |t| t < f(limit))
    };
    assert!(bvh.any_hit(10.0f64.to_bits(), &hit_box, &hit_prim));
    assert!(!bvh.any_hit(4.0f64.to_bits(), &hit_box, &hit_prim));
}

#[test]
fn hierarchies_hold_every_primitive_once() {
    let boxes: Vec<Aabb> = (0..37)
        .map(|i| {
            let x = (i * 7 % 37) as f64;
            Aabb::from_points(&vec![vec3([x, 0.0, 0.0]), vec3([x + 1.0, 1.0, 1.0])])
        })
        .collect();
    let bvh = hierarchy(&boxes);
    let mut order = bvh.prim_order().to_vec();
    order.sort_unstable();
    assert_eq!(order, (0..37).collect::<Vec<u32>>());
    assert!(bvh.node_count() <= 73 && bvh.node_count() == bvh.node_views().len());
    let leaves: u32 = bvh.node_views().iter().map(|n| n.count).sum();
    assert_eq!(leaves, 37);
    let root = bvh.root_bounds().unwrap();
    assert_eq!((p3(root.min), p3(root.max)), ([0.0; 3], [37.0, 1.0, 1.0]));
    let none = hierarchy(&Vec::new());
    assert!(none.is_empty() && none.root_bounds().is_none() && !bvh.is_empty());
}

#[test]
fn small_leaves_stay_together() {
    let boxes: Vec<Aabb> = (0..4)
        .map(|i| Aabb::from_points(&vec![vec3([i as f64, 0.0, 0.0])]))
        .collect();
    assert_eq!(hierarchy(&boxes).node_count(), 1);
    // Boxes that all lie in one place are cheaper together.
    let ten = vec![Aabb::from_points(&vec![vec3([0.0; 3]), vec3([1.0; 3])]); 10];
    let halved = hierarchy(&ten);
    assert_eq!(halved.node_count(), 7);
    assert_eq!(halved.prim_order(), (0..10).collect::<Vec<u32>>());
}

#[test]
fn splits_are_cheapest() {
    let at = |x: f64| Aabb::from_points(&vec![vec3([x, 0.0, 0.0]), vec3([x + 1.0, 1.0, 1.0])]);
    let middle_of = |b: &Aabb| b.centroid(&arithmetic);
    // Evenly along an axis, every bin filled: the boundary lies in the middle.
    let boxes: Vec<Aabb> = (0..32).map(|x| at(x as f64)).collect();
    let centroids: Vec<Vec3> = boxes.iter().map(middle_of).collect();
    assert_eq!(p3(centroids[3]), [3.5, 0.5, 0.5]);
    let order: Vec<u32> = (0..32).collect();
    match plan_split(&boxes, &centroids, &order, 0, 32, &arithmetic) {
        Split::At { axis: 0, boundary } => assert_eq!(f(boundary), 0.5 + 31.0 * 0.5),
        other => panic!("{other:?}"),
    }
    // Between two clusters the bins are empty, and an empty bin makes a side unbounded.
    let apart: Vec<Aabb> = [0.0, 0.5, 1.0, 100.0, 100.5, 101.0].iter().map(|x| at(*x)).collect();
    let centroids: Vec<Vec3> = apart.iter().map(middle_of).collect();
    assert!(matches!(plan_split(&apart, &centroids, &order, 0, 6, &arithmetic), Split::Leaf));
    // One place cannot be divided by it.
    let one = vec![at(0.0); 6];
    let middles = vec![vec3([0.5; 3]); 6];
    assert!(matches!(plan_split(&one, &middles, &order, 0, 6, &arithmetic), Split::Median));
    // Where either side would be as large as the whole, nothing is won.
    let spread: Vec<Vec3> = (0..6).map(|i| vec3([i as f64, 0.5, 0.5])).collect();
    assert!(matches!(plan_split(&one, &spread, &order, 0, 6, &arithmetic), Split::Leaf));
}

#[test]
fn boxes_are_hit() {
    let b = Aabb::from_points(&vec![vec3([-1.0; 3]), vec3([1.0; 3])]);
    let hit = |o: P3, d: P3, t: f64| b.hit(&vec3(o), &inverse(d), t.to_bits(), &arithmetic).map(f);
    assert_eq!(hit([0.0, 0.0, -5.0], [0.0, 0.0, 1.0], 10.0), Some(4.0));
    assert_eq!(hit([0.0, 0.0, 0.0], [0.0, 0.0, 1.0], 10.0), Some(0.0));
    assert_eq!(hit([0.0, 0.0, -5.0], [0.0, 0.0, 1.0], 3.0), None);
    assert_eq!(hit([0.0, 0.0, -5.0], [0.0, 0.0, -1.0], 10.0), None);
    assert_eq!(hit([0.0, 5.0, -5.0], [0.0, 0.0, 1.0], 10.0), None);
    assert_eq!(f(b.surface_area(&arithmetic)), 24.0);
    assert_eq!(f(Aabb::empty().surface_area(&arithmetic)), 0.0);
}

#[test]
fn boxes_grow() {
    let mut a = Aabb::empty();
    assert_eq!((f(a.min.x), f(a.max.x)), (f64::INFINITY, f64::NEG_INFINITY));
    a.grow_point(&vec3([1.0, -2.0, 3.0]));
    a.grow_point(&vec3([0.0, 5.0, 3.0]));
    assert_eq!((p3(a.min), p3(a.max)), ([0.0, -2.0, 3.0], [1.0, 5.0, 3.0]));
    let mut b = Aabb::empty();
    b.grow(&a);
    assert_eq!(b, a);
    assert_eq!(join_boxes(&vec![a, tri_box(&[[9.0, 0.0, 0.0]; 3])]).max.x, 9.0f64.to_bits());
    let corners = box_corners(&a);
    assert_eq!(corners.len(), 8);
    assert!(corners.contains(&vec3([1.0, -2.0, 3.0])) && corners.contains(&vec3([0.0, 5.0, 3.0])));
}

// ---- meshes ----------------------------------------------------------------

#[test]
fn meshes_have_boxes_and_a_hierarchy() {
    let single = |x: f32, y: f32, z: f32| Single3 { x: x.to_bits(), y: y.to_bits(), z: z.to_bits() };
    let shape = PolygonMesh {
        positions: vec![
            single(-1.0, -1.0, 0.0),
            single(1.0, -1.0, 0.0),
            single(1.0, 1.0, 0.0),
            single(-1.0, 1.0, 0.0),
        ],
        indices: vec![0, 1, 2, 0, 2, 3],
        normals: None,
        st: None,
        positions1: Some(vec![
            single(-1.0, -1.0, 2.0),
            single(1.0, -1.0, 2.0),
            single(1.0, 1.0, 2.0),
            single(-1.0, 1.0, 2.0),
        ]),
    };
    assert_eq!(shape.triangle_count(), 2);
    assert_eq!(shape.bounds().len(), 2);
    let mesh = Mesh::with_motion(shape, &arithmetic);
    assert_eq!(p3(mesh.local_bounds.max), [1.0, 1.0, 2.0]);
    assert_eq!(mesh.blas.node_count(), 1);
}

#[test]
fn triangles_are_hit() {
    let single = |x: f32, y: f32, z: f32| Single3 { x: x.to_bits(), y: y.to_bits(), z: z.to_bits() };
    let pair = |s: f32, t: f32| Single2 { s: s.to_bits(), t: t.to_bits() };
    let shape = PolygonMesh {
        positions: vec![single(0.0, 0.0, 0.0), single(2.0, 0.0, 0.0), single(0.0, 2.0, 0.0)],
        indices: vec![0, 1, 2],
        normals: None,
        st: Some(vec![pair(0.0, 0.0), pair(1.0, 0.0), pair(0.0, 1.0)]),
        positions1: Some(vec![single(0.0, 0.0, 4.0), single(2.0, 0.0, 4.0), single(0.0, 2.0, 4.0)]),
    };
    let ray = |x: f64, time: f64| LocalRay {
        origin: vec3([x, 0.5, -5.0]),
        direction: vec3([0.0, 0.0, 1.0]),
        time: time.to_bits(),
    };
    let far = f64::INFINITY.to_bits();
    let hit = shape.intersect_triangle(&ray(0.5, 0.0), 0, far, &arithmetic).unwrap();
    assert_eq!((f(hit.t), f(hit.u), f(hit.v)), (5.0, 0.25, 0.25));
    let later = shape.intersect_triangle(&ray(0.5, 0.5), 0, far, &arithmetic).unwrap();
    assert_eq!(f(later.t), 7.0);
    assert_eq!(p3(shape.vertex_at(1, 0.25f64.to_bits(), &arithmetic)), [2.0, 0.0, 1.0]);
    assert!(shape.intersect_triangle(&ray(0.5, 0.0), 0, 5.0f64.to_bits(), &arithmetic).is_none());
    assert!(shape.intersect_triangle(&ray(1.8, 0.0), 0, far, &arithmetic).is_none());
    assert!(shape.intersect_triangle(&ray(-0.1, 0.0), 0, far, &arithmetic).is_none());
    let st = shape.st_at(0, hit.u, hit.v, &arithmetic).unwrap();
    assert_eq!((f(st.s), f(st.t), f(st.density)), (0.25, 0.25, 0.5));
    let bare = PolygonMesh { st: None, ..shape };
    assert!(bare.st_at(0, hit.u, hit.v, &arithmetic).is_none());
}

// ---- curves and displacement -----------------------------------------------

#[test]
fn dice_bezier_curve() {
    let ctrl: Vec<Vec3> =
        [[0.0, 0.0, 0.0], [0.0, 1.0, 0.0], [1.0, 2.0, 0.0], [2.0, 2.0, 0.0]].iter().map(|p| vec3(*p)).collect();
    let m = named_matrix(Basis::Bezier).unwrap();
    let mut out: Vec<CurveSegment> = Vec::new();
    let (root, tip) = (0.1f64.to_bits(), 0.02f64.to_bits());
    push_curve(&mut out, &ctrl, Some((&m, 3)), root, tip, 8, &arithmetic);
    assert_eq!(out.len(), 8);
    let s = f32::from_bits;
    assert!(s(out[0].p0.x).abs() < 1e-6 && s(out[0].p0.y).abs() < 1e-6);
    assert!((s(out[7].p1.x) - 2.0).abs() < 1e-6 && (s(out[7].p1.y) - 2.0).abs() < 1e-6);
    assert!(s(out[0].p0.radius) > s(out[7].p1.radius));
    assert!((s(out[0].p0.radius) - 0.05).abs() < 1e-6);
    assert_eq!((s(out[0].v0), s(out[7].v1)), (0.0, 1.0));
}

#[test]
fn linear_curves_and_particles() {
    let chain: Vec<Vec3> = [[0.0; 3], [1.0, 0.0, 0.0], [1.0, 2.0, 0.0]].iter().map(|p| vec3(*p)).collect();
    let mut out: Vec<CurveSegment> = Vec::new();
    let width = 1.0f64.to_bits();
    push_curve(&mut out, &chain, None, width, width, 8, &arithmetic);
    assert_eq!(out.len(), 2);
    assert_eq!(f32::from_bits(out[0].v1), 0.5);
    assert_eq!(f32::from_bits(out[1].p1.radius), 0.5);
    let balls = particle_segments(&vec![Particle { center: vec3([3.0, 0.0, 0.0]), width }], &arithmetic);
    assert_eq!((balls[0].p0, f32::from_bits(balls[0].v0)), (balls[0].p1, 0.5));
    out.extend(balls);
    let set = CurveSet::new(out, &arithmetic);
    assert_eq!(set.segment_count(), 3);
    assert_eq!(p3(set.local_bounds.min), [-0.5; 3]);
    assert_eq!(p3(set.local_bounds.max), [3.5, 2.5, 0.5]);
    let parts = |rate: f64| dice_parts(rate.to_bits(), &arithmetic);
    assert_eq!((parts(1.0), parts(0.01), parts(100.0)), (8, 24, 2));
}

#[test]
fn curves_of_several_spans() {
    let samples = dice_curve(7, Some(3), 2);
    let places: Vec<(usize, usize)> = samples.iter().map(|s| (s.first, s.part)).collect();
    assert_eq!(places, [(0, 0), (0, 1), (3, 0), (3, 1), (3, 2)]);
    assert_eq!(dice_curve(3, None, 8).len(), 3);
    assert!(dice_curve(3, Some(1), 8).is_empty());
    assert_eq!((joints(0), joints(1), joints(5)), (0, 0, 4));
}

fn perlin(p: P3) -> f64 {
    f(displace::perlin(vec3(p), &arithmetic))
}

#[test]
fn perlin_is_bounded_and_zero_at_lattice() {
    for i in -3..3 {
        for j in -3..3 {
            assert!(perlin([i as f64, j as f64, 0.0]).abs() < 1e-12);
        }
    }
    let mut mx: f64 = 0.0;
    for i in 0..1000 {
        let t = i as f64 * 0.113;
        mx = mx.max(perlin([t, t * 0.7 + 0.3, t * 1.3 + 0.9]).abs());
    }
    assert!(mx <= 1.3, "perlin out of range: {mx}");
    assert!(mx > 0.05, "perlin suspiciously flat: {mx}");
}

#[test]
fn gradients_point_at_edges() {
    for i in -5..5i64 {
        let g = gradient(i, 3 * i + 1, -i);
        let length = g.0 as i32 * g.0 as i32 + g.1 as i32 * g.1 as i32 + g.2 as i32 * g.2 as i32;
        assert_eq!(length, 2);
    }
    assert_eq!(gradient(0, 0, 0), (1, 1, 0));
}

#[test]
fn octaves_add_up() {
    let d = DisplaceParams {
        amplitude: 1.0f64.to_bits(),
        frequency: 2.0f64.to_bits(),
        octaves: 2,
        gain: 0.5f64.to_bits(),
        lacunarity: 2.0f64.to_bits(),
        offset: vec3([0.1, 0.0, 0.0]),
    };
    let p = [0.3, 0.4, 0.7];
    let at = |freq: f64| perlin(plus(times(p, freq), [0.1, 0.0, 0.0]));
    let expected = 0.0 + 1.0 * at(2.0) + 0.5 * at(4.0);
    assert_eq!(f(fbm(vec3(p), &d, &arithmetic)), expected);
    let none = DisplaceParams { octaves: 0, ..d };
    assert_eq!(f(fbm(vec3(p), &none, &arithmetic)), at(2.0));
}

#[test]
fn displacement_moves_vertices_and_rebuilds_normals() {
    let smooth = cube_cage(Vec::new()).tessellate(3, &arithmetic).unwrap();
    let before: Vec<[f32; 3]> = smooth.positions.iter().map(singles).collect();
    let params = DisplaceParams {
        amplitude: 0.3f64.to_bits(),
        frequency: 2.0f64.to_bits(),
        octaves: 4,
        gain: 0.5f64.to_bits(),
        lacunarity: 2.0f64.to_bits(),
        offset: vec3([0.0; 3]),
    };
    let displaced = displace_mesh(smooth, &params, &arithmetic);
    let moved = displaced
        .positions
        .iter()
        .map(singles)
        .zip(before.iter())
        .filter(|(a, b)| {
            let d = [(a[0] - b[0]), (a[1] - b[1]), (a[2] - b[2])];
            (d[0] * d[0] + d[1] * d[1] + d[2] * d[2]).sqrt() > 1e-4
        })
        .count();
    assert!(moved > before.len() / 2, "displacement barely moved: {moved}");
    for n in displaced.normals.as_ref().unwrap() {
        let n = singles(n);
        let len = (n[0] * n[0] + n[1] * n[1] + n[2] * n[2]).sqrt();
        assert!((len - 1.0).abs() < 1e-3);
    }
}

#[test]
fn normals_of_a_corner() {
    let single = |x: f32, y: f32, z: f32| Single3 { x: x.to_bits(), y: y.to_bits(), z: z.to_bits() };
    let positions =
        vec![single(0.0, 0.0, 0.0), single(1.0, 0.0, 0.0), single(0.0, 1.0, 0.0), single(9.0, 9.0, 9.0)];
    let n = smooth_normals(&positions, &vec![0, 1, 2, 0], &arithmetic);
    assert_eq!(singles(&n[0]), [0.0, 0.0, 1.0]);
    assert_eq!(singles(&n[2]), [0.0, 0.0, 1.0]);
    // No triangle names the last one.
    assert_eq!(singles(&n[3]), [0.0, 0.0, 0.0]);
}

// ---- polygons --------------------------------------------------------------

fn cut(loops: &Vec<Vec<Vec3>>) -> Option<(Vec<Vec3>, Vec<u32>)> {
    triangulate_with_holes(loops, &arithmetic)
}

fn area_of(positions: &[Vec3], indices: &[u32]) -> f64 {
    indices
        .chunks_exact(3)
        .map(|t| {
            let (a, b, c) = (
                p3(positions[t[0] as usize]),
                p3(positions[t[1] as usize]),
                p3(positions[t[2] as usize]),
            );
            let n = cross(sub(b, a), sub(c, a));
            0.5 * dot(n, n).sqrt()
        })
        .sum()
}

fn flat(points: &[(f64, f64)]) -> Vec<Vec3> {
    points.iter().map(|p| vec3([p.0, p.1, 0.0])).collect()
}

#[test]
fn concave_polygon() {
    let outline =
        flat(&[(0.0, 0.0), (2.0, 0.0), (2.0, 1.0), (1.0, 1.0), (1.0, 2.0), (0.0, 2.0)]);
    let (pos, idx) = cut(&vec![outline]).unwrap();
    assert_eq!(idx.len() / 3, 4);
    assert!((area_of(&pos, &idx) - 3.0).abs() < 1e-9);
}

#[test]
fn square_with_hole() {
    let outer = flat(&[(0.0, 0.0), (4.0, 0.0), (4.0, 4.0), (0.0, 4.0)]);
    let hole = flat(&[(1.0, 1.0), (3.0, 1.0), (3.0, 3.0), (1.0, 3.0)]);
    let (pos, idx) = cut(&vec![outer, hole]).unwrap();
    assert!((area_of(&pos, &idx) - 12.0).abs() < 1e-6, "area {}", area_of(&pos, &idx));
    assert_eq!(pos.len(), 10);
    assert_eq!(idx.len(), 24);
}

#[test]
fn polygons_that_cannot_be_cut() {
    assert!(cut(&vec![flat(&[(0.0, 0.0), (1.0, 0.0)])]).is_none());
    // A hole of two points is none.
    let outer = flat(&[(0.0, 0.0), (4.0, 0.0), (4.0, 4.0), (0.0, 4.0)]);
    let (pos, idx) = cut(&vec![outer, flat(&[(1.0, 1.0), (2.0, 2.0)])]).unwrap();
    assert_eq!((pos.len(), idx.len()), (4, 6));
    assert!(loops_mesh(&vec![flat(&[(0.0, 0.0), (1.0, 0.0)])], &arithmetic).is_none());
    // A clockwise outline is turned round.
    let (pos, _) = cut(&vec![flat(&[(0.0, 0.0), (0.0, 1.0), (1.0, 0.0)])]).unwrap();
    assert_eq!(pos, flat(&[(1.0, 0.0), (0.0, 1.0), (0.0, 0.0)]));
    let mesh = loops_mesh(&vec![flat(&[(0.0, 0.0), (0.0, 1.0), (1.0, 0.0)])], &arithmetic).unwrap();
    assert_eq!(mesh.indices, [0, 1, 2]);
    assert_eq!(singles(&mesh.normals.unwrap()[0]), [0.0, 0.0, 1.0]);
}

// ---- patches ---------------------------------------------------------------

fn grid_of(nu: usize, nv: usize, points: Vec<f64>) -> PatchMeshDef {
    PatchMeshDef { points: bits(&points), nu, nv, u_wrap: false, v_wrap: false, bases: None }
}

#[test]
fn bezier_patch_interpolates_corners() {
    let mut pts = Vec::new();
    for j in 0..4 {
        for i in 0..4 {
            let z = if (1..=2).contains(&i) && (1..=2).contains(&j) { 1.0 } else { 0.0 };
            pts.extend_from_slice(&[i as f64, j as f64, z]);
        }
    }
    let bezier = named_matrix(Basis::Bezier).unwrap();
    let mesh = bicubic_mesh(&grid_of(4, 4, pts), &bezier, 3, &bezier, 3, 8, &arithmetic).unwrap();
    let p0 = singles(&mesh.positions[0]);
    assert!((p0[0] - 0.0).abs() < 1e-5 && (p0[1] - 0.0).abs() < 1e-5);
    let last = singles(mesh.positions.last().unwrap());
    assert!((last[0] - 3.0).abs() < 1e-5 && (last[1] - 3.0).abs() < 1e-5);
    let zmax = mesh.positions.iter().map(|p| singles(p)[2]).fold(f32::MIN, f32::max);
    assert!(zmax > 0.3 && zmax < 1.0, "zmax {zmax}");
    assert_eq!(mesh.positions.len(), 81);
    let st = mesh.st.unwrap();
    assert_eq!((f32::from_bits(st[80].s), f32::from_bits(st[80].t)), (1.0, 1.0));
    assert_eq!((f32::from_bits(st[4].s), f32::from_bits(st[4].t)), (0.5, 0.0));
}

#[test]
fn bspline_mesh_multiple_patches_no_cracks() {
    let mut pts = Vec::new();
    for j in 0..4 {
        for i in 0..7 {
            pts.extend_from_slice(&[i as f64, j as f64, ((i * 3 + j) % 2) as f64 * 0.3]);
        }
    }
    let bspline = named_matrix(Basis::BSpline).unwrap();
    let mesh = bicubic_mesh(&grid_of(7, 4, pts), &bspline, 1, &bspline, 1, 4, &arithmetic).unwrap();
    assert_eq!(mesh.positions.len(), (4 * 4 + 1) * (1 * 4 + 1));
    assert_eq!(mesh.triangle_count(), (4 * 4) * 4 * 2);
}

#[test]
fn bilinear_patches_interpolate() {
    let pts = vec![0.0, 0.0, 0.0, 2.0, 0.0, 0.0, 0.0, 2.0, 0.0, 2.0, 2.0, 4.0];
    let mesh = bilinear_mesh(&grid_of(2, 2, pts.clone()), 2, &arithmetic).unwrap();
    assert_eq!(singles(&mesh.positions[4]), [1.0, 1.0, 1.0]);
    assert_eq!(singles(&mesh.positions[8]), [2.0, 2.0, 4.0]);
    assert!(bilinear_mesh(&grid_of(2, 2, pts[..11].to_vec()), 2, &arithmetic).is_none());
    let bezier = named_matrix(Basis::Bezier).unwrap();
    assert!(bicubic_mesh(&grid_of(2, 2, pts), &bezier, 3, &bezier, 3, 2, &arithmetic).is_none());
}

#[test]
fn bases_of_a_cubic() {
    for basis in [Basis::Bezier, Basis::BSpline, Basis::CatmullRom] {
        let m = named_matrix(basis).unwrap();
        for u in [0.0, 0.3, 1.0f64] {
            let total: f64 = basis_weights(&m, u.to_bits(), &arithmetic).into_iter().map(f).sum();
            assert!((total - 1.0).abs() < 1e-12, "{basis:?} {total}");
        }
    }
    let at = |basis: Basis, u: f64| -> Vec<f64> {
        basis_weights(&named_matrix(basis).unwrap(), u.to_bits(), &arithmetic).into_iter().map(f).collect()
    };
    assert_eq!(at(Basis::Bezier, 0.5), [0.125, 0.375, 0.375, 0.125]);
    assert_eq!(at(Basis::CatmullRom, 0.0), [0.0, 1.0, 0.0, 0.0]);
    assert_eq!(at(Basis::Hermite, 1.0), [0.0, 0.0, 1.0, 0.0]);
    assert_eq!(at(Basis::Power, 2.0), [8.0, 4.0, 2.0, 1.0]);
    assert!(named_matrix(Basis::Given { request: 0, value: 0 }).is_none());
}

fn sheet(rational: bool) -> NuPatchDef {
    let (nu, nv) = (4, 3);
    let mut pts = Vec::new();
    for j in 0..nv {
        for i in 0..nu {
            pts.extend_from_slice(&[i as f64, j as f64, 0.0]);
            if rational {
                pts.push(2.0);
            }
        }
    }
    NuPatchDef {
        nu,
        uorder: 3,
        uknot: bits(&[0.0, 0.0, 0.0, 0.5, 1.0, 1.0, 1.0]),
        umin: 0.0f64.to_bits(),
        umax: 1.0f64.to_bits(),
        nv,
        vorder: 3,
        vknot: bits(&[0.0, 0.0, 0.0, 1.0, 1.0, 1.0]),
        vmin: 0.0f64.to_bits(),
        vmax: 1.0f64.to_bits(),
        points: bits(&pts),
        rational,
    }
}

#[test]
fn nurbs_flat_sheet() {
    let mesh = nurbs_mesh(&sheet(false), 8, 8, &arithmetic).unwrap();
    for p in &mesh.positions {
        let p = singles(p);
        assert!(p[2].abs() < 1e-5);
        assert!(p[0] >= -1e-5 && p[0] <= 3.0 + 1e-4);
    }
    let p0 = singles(&mesh.positions[0]);
    assert!(p0[0].abs() < 1e-5 && p0[1].abs() < 1e-5);
    let last = singles(mesh.positions.last().unwrap());
    assert!((last[0] - 3.0).abs() < 1e-5 && (last[1] - 2.0).abs() < 1e-5);
    assert_eq!(mesh.positions.len(), 81);
    assert!(tessellate_nurbs(36, 4, 3, true, 8, 8).is_none());
    let short = NuPatchDef { points: bits(&[0.0; 35]), ..sheet(false) };
    assert!(nurbs_mesh(&short, 8, 8, &arithmetic).is_none());
}

#[test]
fn spline_values_add_up_to_one() {
    let knots = bits(&[0.0, 0.0, 0.0, 0.0, 1.0, 1.0, 1.0, 1.0]);
    let at = |t: f64| -> Vec<f64> {
        bspline_basis(&knots, 4, 4, t.to_bits(), &arithmetic).into_iter().map(f).collect()
    };
    // Without inner knots a spline is a Bezier curve.
    assert_eq!(at(0.5), [0.125, 0.375, 0.375, 0.125]);
    assert_eq!(at(0.0), [1.0, 0.0, 0.0, 0.0]);
    assert_eq!(at(1.0), [0.0, 0.0, 0.0, 1.0]);
    let uneven = bits(&[0.0, 0.0, 0.0, 0.2, 0.7, 1.0, 1.0, 1.0]);
    for t in [0.0, 0.1, 0.2, 0.5, 0.9, 1.0f64] {
        let values = bspline_basis(&uneven, 5, 3, t.to_bits(), &arithmetic);
        let total: f64 = values.iter().map(|b| f(*b)).sum();
        assert!((total - 1.0).abs() < 1e-12, "at {t}: {total}");
        assert!(values.iter().filter(|b| f(**b) != 0.0).count() <= 3);
    }
}

#[test]
fn rational_points_are_divided_by_their_weight() {
    let at = |d: &NuPatchDef| p3(eval_nurbs(d, 0.5f64.to_bits(), 0.5f64.to_bits(), &arithmetic));
    let plain = at(&sheet(false));
    assert!((plain[0] - 1.5).abs() < 1e-12 && (plain[1] - 1.0).abs() < 1e-12);
    let half = at(&sheet(true));
    assert!((half[0] - 0.75).abs() < 1e-12 && (half[1] - 0.5).abs() < 1e-12);
}

#[test]
fn segments_by_shading_rate() {
    let segs = |rate: f64| dice_segments(rate.to_bits(), &arithmetic);
    assert_eq!((segs(1.0), segs(0.5), segs(100.0), segs(0.0)), (16, 32, 2, 64));
}

#[test]
fn knot_spans() {
    let knots: Vec<u64> = [0.0, 0.0, 0.0, 0.5, 1.0, 1.0, 1.0].iter().map(|x: &f64| x.to_bits()).collect();
    let at = |t: f64| knot_span(&knots, 4, 3, t.to_bits());
    assert_eq!((at(0.0), at(0.25), at(0.5), at(0.75), at(1.0)), (2, 2, 3, 3, 3));
}

#[test]
fn spans_and_grids() {
    assert_eq!(bicubic_span_count(7, 3, false), 2);
    assert_eq!(bicubic_span_count(3, 1, false), 0);
    assert_eq!(bicubic_span_count(6, 3, true), 2);
    assert_eq!((bilinear_span_count(5, false), bilinear_span_count(5, true)), (4, 5));
    assert!(grid_is_covered(36, 4, 3, 3) && !grid_is_covered(35, 4, 3, 3));
    assert_eq!(basis_by_name("bezier").unwrap().step, 3);
    assert_eq!(basis_by_name("b-spline").unwrap().basis, Basis::BSpline);
    assert!(basis_by_name("quintic").is_none());
    let def = patches::PatchMeshDef { points_len: 12, nu: 2, nv: 2, u_wrap: false, v_wrap: false };
    let grid = tessellate_bilinear(&def, 2).unwrap();
    assert_eq!((grid.gu, grid.gv, grid.samples.len(), grid.indices.len()), (3, 3, 9, 24));
    assert_eq!(&grid.indices[..6], &[0, 1, 4, 0, 4, 3]);
    let short = patches::PatchMeshDef { points_len: 11, ..def };
    assert!(tessellate_bilinear(&short, 2).is_none());
    // A closed direction has its last column joined to its first.
    let ring = patches::PatchMeshDef { points_len: 18, nu: 3, nv: 2, u_wrap: true, v_wrap: false };
    let grid = tessellate_bilinear(&ring, 1).unwrap();
    assert_eq!((grid.gu, grid.gv, grid.indices.len()), (3, 2, 18));
    assert_eq!(controls(3, 2, 2, 0, 2), [2, 0, 5, 3]);
    let wide = patches::PatchMeshDef { points_len: 84, nu: 7, nv: 4, u_wrap: false, v_wrap: false };
    assert_eq!(tessellate_bicubic(&wide, 1, 1, 4).unwrap().samples.len(), 85);
}

// ---- subdivision -----------------------------------------------------------

fn cube_cage(creases: Vec<(u32, u32, f64)>) -> SubdivCage {
    let positions = [
        [-1.0, -1.0, -1.0],
        [1.0, -1.0, -1.0],
        [1.0, 1.0, -1.0],
        [-1.0, 1.0, -1.0],
        [-1.0, -1.0, 1.0],
        [1.0, -1.0, 1.0],
        [1.0, 1.0, 1.0],
        [-1.0, 1.0, 1.0],
    ];
    SubdivCage {
        positions: positions.iter().map(|p| vec3(*p)).collect(),
        faces: vec![
            vec![0, 1, 2, 3],
            vec![5, 4, 7, 6],
            vec![4, 0, 3, 7],
            vec![1, 5, 6, 2],
            vec![3, 2, 6, 7],
            vec![4, 5, 1, 0],
        ],
        crease_edges: creases
            .into_iter()
            .map(|(a, b, s)| Crease { a, b, sharpness: s.to_bits() })
            .collect(),
        corners: Vec::new(),
        holes: Vec::new(),
        interpolate_boundary: true,
    }
}

fn rounds(cage: SubdivCage, levels: u32) -> SubdivCage {
    cage.subdivide(levels, &arithmetic).unwrap()
}

#[test]
fn cube_rounds_toward_sphere() {
    let mesh = cube_cage(Vec::new()).tessellate(3, &arithmetic).unwrap();
    assert!(mesh.triangle_count() > 500);
    let radii: Vec<f64> = mesh
        .positions
        .iter()
        .map(|p| singles(p).iter().map(|x| (*x as f64).powi(2)).sum::<f64>().sqrt())
        .collect();
    let rmin = radii.iter().cloned().fold(f64::INFINITY, f64::min);
    let rmax = radii.iter().cloned().fold(0.0, f64::max);
    assert!(rmax < 1.5, "vertices escaped the cage: {rmax}");
    assert!(rmax / rmin < 1.35, "smooth subdiv cube should be near-round: {rmin:.3}..{rmax:.3}");
}

#[test]
fn infinite_crease_keeps_edge_sharp() {
    let creases = vec![(0, 1, 1e9), (1, 2, 1e9), (2, 3, 1e9), (3, 0, 1e9)];
    let cage = rounds(cube_cage(creases), 3);
    let on_plane: Vec<P3> = cage
        .positions
        .iter()
        .map(|p| p3(*p))
        .filter(|p| (p[2] + 1.0).abs() < 1e-4)
        .collect();
    assert!(on_plane.len() > 20, "creased face ring collapsed: {} verts on plane", on_plane.len());
    let max_xy = on_plane.iter().map(|p| p[0].abs().max(p[1].abs())).fold(0.0, f64::max);
    assert!(max_xy > 0.9, "crease boundary over-shrank: max |xy| = {max_xy}");
}

#[test]
fn corner_tags_pin_vertices() {
    let creases = vec![(0, 1, 1e9), (1, 2, 1e9), (2, 3, 1e9), (3, 0, 1e9)];
    let mut cage = cube_cage(creases);
    cage.corners =
        (0..4).map(|vertex| Corner { vertex, sharpness: 1e9f64.to_bits() }).collect();
    let cage = rounds(cage, 3);
    let pinned = cage
        .positions
        .iter()
        .map(|p| p3(*p))
        .filter(|p| {
            (p[0].abs() - 1.0).abs() < 1e-5
                && (p[1].abs() - 1.0).abs() < 1e-5
                && (p[2] + 1.0).abs() < 1e-5
        })
        .count();
    assert!(pinned >= 4, "tagged corners not pinned: {pinned}");
}

#[test]
fn hole_faces_removed() {
    let mut cage = cube_cage(Vec::new());
    cage.holes = vec![0];
    let with_hole = cage.tessellate(1, &arithmetic).unwrap().triangle_count();
    let without = cube_cage(Vec::new()).tessellate(1, &arithmetic).unwrap().triangle_count();
    assert!(with_hole < without);
}

#[test]
fn one_round_of_a_cube() {
    let round = cube_cage(Vec::new()).subdivide_once();
    // A point per face, edge and vertex; a quadrilateral per corner of a face.
    assert_eq!(round.rules.len(), 6 + 12 + 8);
    assert_eq!(round.faces.len(), 24);
    assert!(round.faces.iter().all(|q| q.len() == 4));
    assert!(matches!(round.rules[0], PointRule::Face(0)));
    assert_eq!(EdgeKey::new(5, 2), EdgeKey(2, 5));
}

#[test]
fn sharpness_goes_down_by_one() {
    let mut cage = cube_cage(vec![(0, 1, 2.5), (1, 2, 0.5)]);
    cage.corners = vec![Corner { vertex: 0, sharpness: 1e9f64.to_bits() }];
    let round = cage.subdivide_once();
    let left: Vec<f64> = round.crease_edges.iter().map(|c| f(c.sharpness)).collect();
    assert_eq!(left, [1.5, 1.5]);
    assert_eq!(round.corners.len(), 1);
    assert_eq!(f(round.corners[0].sharpness), 1e9);
}

#[test]
fn segments_of_nurbs_directions() {
    assert_eq!(nurbs_segments(8, 6, 4), 24);
    assert_eq!(nurbs_segments(1, 4, 4), 4);
    assert_eq!(nurbs_segments(8, 40, 3), 128);
    assert_eq!(nurbs_segments(8, 2, 4), 8);
}
