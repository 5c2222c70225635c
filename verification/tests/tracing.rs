use render_rs::accel::bvh::{Aabb, Bvh};
use render_rs::arith::Op;
use render_rs::double::{dyadic_double, larger_of, less, narrow, smaller_of, to_small_integer, to_u32, widen};
use render_rs::geometry::mesh::Single3;
use render_rs::math::{Point3, Vec3};
use render_rs::parser::parse_rib_bytes;
use render_rs::parser::scene::{PrimitiveKind, Wrap};
use render_rs::raytracer::flatten::{
    matrix_to_f32, CameraValues, FlatMaterial, FlatScene, FlattenError, LightPlace, LightValues,
    MaterialValues, ObjectValues, SceneValues,
};
use render_rs::raytracer::metal::checkpoint::{
    load_checkpoint, next_step, resume_at, save_checkpoint,
};
use render_rs::raytracer::metal::gpu_scene::{
    GpuPtScene, InstanceValues, LightShape, MeshValues, PtLightValues, PtMaterialValues,
    PtSceneValues,
};
use render_rs::raytracer::metal::pattern_codegen::{
    build, BoundField, GraphNode, MipLevel, NodeInput, TexImage, TexRef,
};
use render_rs::raytracer::metal::scene_buffers::SceneBuffers;
use render_rs::raytracer::metal::readback::{film_of, image, sum_and_weight};
use render_rs::raytracer::metal::schedule::{
    chunk_pixels, cut, direct_bands, first_wave, is_watchdog_kill, is_wave_due, next_wave,
    path_chunks, pt_rows_per_band, pt_source, slab_size, slabs, threadgroup_side, wf_source,
    whitted_source, BandEvent, BandFailure, BandJob, BandState, Piece, SlabJob, SlabState,
};
use render_rs::raytracer::mlx;
use render_rs::raytracer::mlx::{metal_column, render, Column};
use render_rs::raytracer::pt::hair::{Absorption, HairRequest};
use render_rs::raytracer::pt::medium::MediumStack;
use render_rs::raytracer::pt::path::{
    cross, interior_of_hull, max_bounces, shadow_media, HitFacts, Meeting, PathEvent, PathState,
};
use render_rs::raytracer::pt::records::{luminance, record, Running, Sample};
use render_rs::raytracer::pt::sampler::Pcg32;
use render_rs::raytracer::pt::samples::{adapt_pixel, assemble, gather_pixel, gather_row, PixelRecord};
use render_rs::raytracer::pt::volume::MediumValues;
use render_rs::raytracer::pt::walk::{keep_on, wander, Wall};
use render_rs::raytracer::ray::Ray;
use render_rs::texture::{texture_files, tiled_texture, TextureFiles};

fn b(x: f64) -> u64 {
    x.to_bits()
}

fn f(bits: u64) -> f64 {
    f64::from_bits(bits)
}

fn arithmetic(op: Op, x: u64, y: u64) -> u64 {
    let (x, y) = (f(x), f(y));
    b(match op {
        Op::Plus => x + y,
        Op::Minus => x - y,
        Op::Times => x * y,
        Op::Over => x / y,
        Op::Root => x.sqrt(),
        Op::Floor => x.floor(),
        Op::CubeRoot => x.cbrt(),
        Op::Degrees => x.atan2(y).to_degrees(),
        Op::Radians => x.to_radians(),
        Op::Sine => x.sin(),
        Op::Cosine => x.cos(),
        Op::Tangent => x.tan(),
        Op::ArcTangent => x.atan(),
        Op::Exponential => x.exp(),
        Op::Logarithm => x.ln(),
        Op::Power => x.powi(y as i32),
        Op::RealPower => x.powf(y),
    })
}

fn vec3(x: f64, y: f64, z: f64) -> Vec3 {
    Vec3::new(b(x), b(y), b(z))
}

fn single(x: f32, y: f32, z: f32) -> Single3 {
    Single3 { x: x.to_bits(), y: y.to_bits(), z: z.to_bits() }
}

// ---- random numbers --------------------------------------------------------

#[test]
fn uniform_mean() {
    let mut rng = Pcg32::new(42, 54);
    let n = 100_000;
    let mean: f64 = (0..n).map(|_| f(rng.next_f64())).sum::<f64>() / n as f64;
    assert!((mean - 0.5).abs() < 0.005, "mean {mean}");
}

#[test]
fn deterministic_per_seed() {
    let draw = |pixel: u64, sample: u64| -> Vec<u32> {
        let mut r = Pcg32::for_pixel_sample(pixel, sample);
        (0..8).map(|_| r.next_u32()).collect()
    };
    let a = draw(7, 3);
    let b = draw(7, 3);
    let c = draw(7, 4);
    assert_eq!(a, b);
    assert_ne!(a, c);
}

#[test]
fn known_draws() {
    // The reference stream of this generator for seed 42 and sequence 54.
    let mut r = Pcg32::new(42, 54);
    let first: Vec<u32> = (0..3).map(|_| r.next_u32()).collect();
    assert_eq!(first, [0xa15c02b7, 0x7b47f409, 0xba1d3330]);
    let mut r = Pcg32::new(42, 54);
    assert_eq!(f(r.next_f64()), 0xa15c02b7u32 as f64 / 4294967296.0);
    let mut r = Pcg32::new(1, 2);
    assert!((0..100).all(|_| r.next_below(7) < 7));
    let mut one = Pcg32::new(5, 6);
    let mut two = Pcg32::new(5, 6);
    assert_eq!(one.next_2d(), (two.next_f64(), two.next_f64()));
}

// ---- doubles ---------------------------------------------------------------

#[test]
fn doubles_by_their_bits() {
    for x in [0.0, -0.0, 1.0, 0.1, -2.5e-40, 3.4e38, 1e300, f64::INFINITY] {
        assert_eq!(narrow(b(x)), (x as f32).to_bits(), "{x}");
    }
    for x in [0.1f32, -7.25, 1e-42, f32::MAX, f32::NEG_INFINITY] {
        assert_eq!(widen(x.to_bits()), (x as f64).to_bits(), "{x}");
    }
    assert_eq!(f(dyadic_double(-3, 1)), -1.5);
    assert_eq!(to_small_integer(b(-17.0)), Some(-17));
    assert_eq!(to_small_integer(b(0.5)), None);
    assert_eq!((to_u32(b(-1.0)), to_u32(b(3.9)), to_u32(b(1e10)), to_u32(b(f64::NAN))), (0, 3, u32::MAX, 0));
    assert!(less(b(-1.0), b(0.5)) && !less(b(0.0), b(-0.0)) && !less(b(f64::NAN), b(1.0)));
    assert_eq!((f(smaller_of(b(2.0), b(-3.0))), f(larger_of(b(2.0), b(-3.0)))), (-3.0, 2.0));
}

// ---- paths -----------------------------------------------------------------

#[test]
fn nested_media() {
    let mut m = MediumStack::new(Some(9));
    assert_eq!(m.current(), Some(9));
    m.pop();
    assert_eq!(m.current(), Some(9));
    for k in 0..10 {
        m.push(k);
    }
    assert_eq!(m.current(), Some(7));
    let inner = cross(m, 3, false);
    assert_eq!(inner.current(), Some(6));
    assert_eq!(cross(inner, 3, true).current(), Some(3));
    assert_eq!(shadow_media(Some(9), Some(9)).current(), Some(9));
    assert_eq!(shadow_media(Some(9), Some(2)).current(), Some(2));
    assert_eq!(shadow_media(None, None).current(), None);
}

#[test]
fn what_a_ray_meets() {
    let h = HitFacts { interior: Some(4), is_hair: false, has_lobes: false, emits: false, passes: false };
    let p = PathState::new(None);
    assert_eq!(interior_of_hull(&h), Some(4));
    assert_eq!(p.meet(&h), Meeting::Hull(4));
    assert_eq!(p.meet(&HitFacts { has_lobes: true, ..h }), Meeting::Surface);
    assert_eq!(p.meet(&HitFacts { has_lobes: true, passes: true, ..h }), Meeting::Cutout);
    let mut q = p;
    for _ in 0..16 {
        q = q.step(PathEvent::Cutout, 8).unwrap();
    }
    assert_eq!(q.meet(&h), Meeting::Surface);
    assert_eq!((q.skips, q.depth, q.from_camera, q.recorded), (16, 0, true, true));
}

#[test]
fn paths_bounce_until_they_end() {
    let max = max_bounces(false);
    let mut p = PathState::new(None);
    assert!(p.is_diffuse() && !p.plays_roulette());
    let mut bounces = 0;
    while let Some(next) = p.step(
        PathEvent::Bounce { specular: bounces == 0, through: None, survives: true },
        max,
    ) {
        p = next;
        bounces += 1;
        assert!(!p.is_diffuse());
    }
    assert_eq!(bounces, max - 1);
    assert!(max_bounces(true) > max);
    let first = PathState::new(None);
    assert!(first.step(PathEvent::Ends, max).is_none());
    let inside = first
        .step(PathEvent::Bounce { specular: true, through: Some((5, true)), survives: true }, max)
        .unwrap();
    assert_eq!(inside.media.current(), Some(5));
    let out = inside.step(PathEvent::Crossing { interior: 5, front_face: false }, max).unwrap();
    assert_eq!(out.media.current(), None);
    let diffuse = first.step(PathEvent::Scatter { survives: true }, max).unwrap();
    assert!(diffuse.is_diffuse());
}

#[test]
fn roulette_ends_paths() {
    let max = max_bounces(false);
    let go = PathEvent::Scatter { survives: true };
    let end = PathEvent::Scatter { survives: false };
    let mut p = PathState::new(None);
    while !p.plays_roulette() {
        assert!(p.step(end, max).is_some());
        p = p.step(go, max).unwrap();
    }
    assert!(p.step(end, max).is_none());
    assert!(p.step(go, max).is_some());
}

// ---- samples ---------------------------------------------------------------

#[test]
fn passes_join_to_the_whole() {
    let trace = |x: usize, y: usize, rng: Pcg32| {
        let mut rng = rng;
        rng.next_u32() as u64 + x as u64 + y as u64
    };
    let add = |a: u64, v: u64| a.wrapping_mul(31).wrapping_add(v);
    let whole = gather_pixel(&trace, &add, 1u64, 3, 2, 8, 0, 10);
    let half = gather_pixel(&trace, &add, 1u64, 3, 2, 8, 0, 4);
    assert_eq!(gather_pixel(&trace, &add, half, 3, 2, 8, 4, 10), whole);
    let row = gather_row(&trace, &add, 1u64, 2, 8, 0, 10);
    assert_eq!((row.len(), row[3]), (8, whole));
}

#[test]
fn settled_pixels_stop() {
    let trace = |_: usize, _: usize, _: Pcg32| 1u32;
    let add = |a: u32, v: u32| a + v;
    let never = |_: u32, _: u32| false;
    assert_eq!(adapt_pixel(&trace, &add, &never, 0u32, 0, 0, 1, 100), (100, 100));
    let soon = |_: u32, _: u32| true;
    let (sum, n) = adapt_pixel(&trace, &add, &soon, 0u32, 0, 0, 1, 100);
    assert_eq!(sum, n);
    assert!(n >= 1 && n < 100);
}

#[test]
fn records_become_layers() {
    let r = PixelRecord {
        beauty: vec3(1.0, 2.0, 3.0),
        diffuse: vec3(0.5, 0.0, 0.0),
        specular: vec3(0.0, 0.5, 0.0),
        albedo: vec3(0.1, 0.2, 0.3),
        normal: vec3(0.0, 0.0, 1.0),
        depth: b(4.5),
        id: 7,
        coverage: b(0.75),
    };
    let film = assemble(&vec![vec![r, r]], vec![(7, "ball".to_string())]);
    assert_eq!((film.width(), film.height()), (2, 1));
    assert_eq!(film.beauty[0][1], r.beauty);
    assert_eq!(film.depth[0][0], vec3(4.5, 0.0, 0.0));
    assert_eq!(film.id[0][0], vec3(7.0, 0.75, 0.0));
    assert_eq!(film.manifest, [(7, "ball".to_string())]);
}

fn sample_of(light: f64, depth: f64, id: u32) -> Sample {
    Sample {
        light: vec3(light, light, light),
        diffuse: vec3(0.25 * light, light, 2.0 * light),
        albedo: vec3(0.5, 0.5, 0.5),
        normal: vec3(0.0, 0.0, 1.0),
        depth: b(depth),
        id,
    }
}

#[test]
fn samples_become_records() {
    let samples =
        vec![sample_of(1.0, 4.0, 7), sample_of(2.0, 0.0, 3), sample_of(1.0, 8.0, 7), sample_of(0.0, 0.0, 0)];
    let r = record(&samples, &arithmetic);
    assert_eq!(r.beauty, vec3(1.0, 1.0, 1.0));
    assert_eq!(r.diffuse, vec3(0.25, 1.0, 2.0));
    // What is not diffuse, and never less than nothing.
    assert_eq!(r.specular, vec3(0.75, 0.0, 0.0));
    assert_eq!((r.albedo, r.normal), (vec3(0.5, 0.5, 0.5), vec3(0.0, 0.0, 1.0)));
    // Only samples that met something have a depth.
    assert_eq!((f(r.depth), r.id, f(r.coverage)), (6.0, 7, 0.5));
    let none = record(&vec![sample_of(1.0, 0.0, 0)], &arithmetic);
    assert_eq!((f(none.depth), f(none.coverage)), (0.0, 1.0));
}

#[test]
fn means_run_and_settle() {
    let lights = [1.0, 3.0, 2.0, 2.0];
    let mut r = Running::new();
    for x in lights {
        r = r.with(&vec3(x, 2.0 * x, 0.0), &arithmetic);
    }
    assert_eq!((f(r.mean.x), f(r.mean.y), r.n), (2.0, 4.0, 4));
    let share = 0.2126 + 2.0 * 0.7152;
    assert!((f(r.lum) - 2.0 * share).abs() < 1e-9);
    // Two samples are off by one each.
    assert!((f(r.m2) - 2.0 * share * share).abs() < 1e-9);
    let width = 1.96 * (2.0 / 3.0 / 4.0f64).sqrt() / 2.0;
    assert!(r.settled(b(width * 1.01), &arithmetic));
    assert!(!r.settled(b(width * 0.99), &arithmetic));
}

#[test]
fn bright_samples_are_dimmed() {
    assert_eq!(sample_of(50.0, 1.0, 1).dim(&arithmetic), sample_of(50.0, 1.0, 1));
    let s = sample_of(120.0, 1.0, 1).dim(&arithmetic);
    assert!((f(s.light.x) - 60.0).abs() < 1e-9 && (f(s.diffuse.x) - 15.0).abs() < 1e-9);
    assert_eq!((f(s.depth), s.id), (1.0, 1));
    assert!((f(luminance(&vec3(1.0, 0.0, 0.0), &arithmetic)) - 0.2126).abs() < 1e-12);
}

#[test]
fn walks_leave_or_end() {
    let m = |s: f64, a: f64| {
        let t = s + a;
        MediumValues {
            sigma_s: vec3(s, s, s),
            sigma_t: vec3(t, t, t),
            majorant: b(t),
            max_distance: b(f64::INFINITY),
        }
    };
    let start = Ray {
        origin: Point3::new(b(0.0), b(0.0), b(0.0)),
        direction: vec3(0.0, 0.0, 1.0),
        time: b(0.25),
    };
    // A ball of radius one round the start; its normals point inwards.
    let ball = |r: Ray| {
        let (o, d) = (r.origin, r.direction);
        let dot = f(o.x) * f(d.x) + f(o.y) * f(d.y) + f(o.z) * f(d.z);
        let off = f(o.x).powi(2) + f(o.y).powi(2) + f(o.z).powi(2) - 1.0;
        let t = -dot + (dot * dot - off).max(0.0).sqrt();
        let at = |o: u64, d: u64| b(-(f(o) + t * f(d)));
        assert_eq!(f(r.time), 0.25);
        Some(Wall { t: b(t), normal: Vec3::new(at(o.x, d.x), at(o.y, d.y), at(o.z, d.z)) })
    };
    let beta = Vec3::one();
    // Through a clear medium the walk goes straight on.
    let mut rng = Pcg32::for_pixel_sample(1, 2);
    let e = wander(&m(0.0, 0.0), &ball, &start, &beta, &mut rng, &arithmetic).unwrap();
    assert_eq!((f(e.at.z), f(e.normal.z), e.beta), (1.0, 1.0, beta));
    // In a dense one it leaves somewhere on the ball, with no more light than it had.
    let mut left = 0;
    for s in 0..50 {
        let mut rng = Pcg32::for_pixel_sample(3, s);
        if let Some(e) = wander(&m(4.0, 0.1), &ball, &start, &beta, &mut rng, &arithmetic) {
            let p = [f(e.at.x), f(e.at.y), f(e.at.z)];
            let r: f64 = p.iter().map(|x| x * x).sum();
            assert!((r - 1.0).abs() < 1e-9);
            let outward = p[0] * f(e.normal.x) + p[1] * f(e.normal.y) + p[2] * f(e.normal.z);
            assert!(outward > 0.0);
            left += 1;
        }
    }
    assert!(left > 25, "{left}");
    // Where there is no surface, and where light never leaves, the walk ends.
    let open = |_: Ray| None::<Wall>;
    assert!(wander(&m(1.0, 0.0), &open, &start, &beta, &mut rng, &arithmetic).is_none());
    let far = |_: Ray| Some(Wall { t: b(1e12), normal: Vec3::one() });
    assert!(wander(&m(1.0, 0.0), &far, &start, &beta, &mut rng, &arithmetic).is_none());
    // Roulette starts after the ninth step.
    let mut rng = Pcg32::for_pixel_sample(5, 5);
    assert_eq!(keep_on(&beta, 8, &mut rng, &arithmetic), Some(beta));
    assert!(keep_on(&Vec3::zero(), 0, &mut rng, &arithmetic).is_none());
    let dim = vec3(0.5, 0.5, 0.5);
    let kept: Vec<_> = (0..200).filter_map(|_| keep_on(&dim, 9, &mut rng, &arithmetic)).collect();
    assert!(kept.iter().all(|v| *v == Vec3::one()));
    assert!((70..130).contains(&kept.len()), "{}", kept.len());
}

// ---- flattened scenes ------------------------------------------------------

fn unit() -> [u64; 16] {
    let mut m = [0u64; 16];
    for i in 0..4 {
        m[5 * i] = b(1.0);
    }
    m
}

fn camera() -> CameraValues {
    CameraValues {
        eye: vec3(0.0, 0.0, -5.0),
        forward: vec3(0.0, 0.0, 1.0),
        right: vec3(1.0, 0.0, 0.0),
        up: vec3(0.0, 1.0, 0.0),
        fov: b(90.0),
        width: 640,
        height: 320,
    }
}

fn sphere(material_id: usize, inverse: [u64; 16]) -> ObjectValues {
    ObjectValues {
        kind: PrimitiveKind::Sphere { radius: b(2.0), zmin: b(-2.0), zmax: b(2.0), thetamax: b(360.0) },
        inverse,
        transform: unit(),
        material_id,
    }
}

fn scene(objects: Vec<ObjectValues>) -> SceneValues {
    SceneValues {
        objects,
        materials: vec![MaterialValues {
            color: vec3(0.5, 0.25, 0.125),
            ka: b(0.1),
            kd: b(0.6),
            ks: b(0.3),
            shininess: b(32.0),
            reflectivity: b(0.0),
            is_metal: true,
        }],
        lights: vec![LightValues {
            place: LightPlace::Distant { direction: vec3(0.0, -1.0, 0.0) },
            intensity: b(0.8),
            color: Vec3::one(),
        }],
        background: Vec3::zero(),
        camera: camera(),
        pixel_samples: (2, 3),
    }
}

#[test]
fn scenes_in_single_precision() {
    let flat = FlatScene::from_scene(&scene(vec![sphere(0, unit())]), &arithmetic).unwrap();
    assert_eq!(flat.materials[0].ka, 0.1f32.to_bits());
    assert_eq!((flat.width, flat.height, flat.pixel_samples), (640, 320, (2, 3)));
    // A quarter turn up and down, and an image twice as wide as high.
    let (w, h) = (f32::from_bits(flat.camera.half_width), f32::from_bits(flat.camera.half_height));
    assert!((h - 1.0).abs() < 1e-6 && (w - 2.0).abs() < 1e-6);
    let buffers = SceneBuffers::build(&flat);
    assert_eq!(buffers.objects.len(), 1);
    assert_eq!(buffers.objects[0].kind, 0);
    assert_eq!(buffers.objects[0].params[0], 2.0f32.to_bits());
    assert_eq!(buffers.materials[0].is_metal, 1);
    assert_eq!(buffers.lights[0].kind, 1);
    assert_eq!(buffers.uniforms.object_count, 1);
    assert_eq!(buffers.objects_bytes().len(), 4 * (1 + 9 + 16 + 16));
    assert_eq!(buffers.materials_bytes().len(), 4 * 9);
    assert_eq!(buffers.lights_bytes().len(), 4 * 8);
    assert_eq!(&buffers.lights_bytes()[..4], &[1, 0, 0, 0]);
    assert_eq!(metal_column(&flat.materials), [true]);
    assert_eq!(mlx::column(&flat.materials, Column::Kd), [0.6f32.to_bits()]);
    assert_eq!(mlx::column(&flat.materials, Column::Blue), [0.125f32.to_bits()]);
}

#[test]
fn empty_scenes_have_one_blank_of_each() {
    let mut s = scene(Vec::new());
    s.lights.clear();
    let buffers = SceneBuffers::build(&FlatScene::from_scene(&s, &arithmetic).unwrap());
    assert_eq!((buffers.uniforms.object_count, buffers.uniforms.light_count), (0, 0));
    assert_eq!((buffers.objects.len(), buffers.lights.len()), (1, 1));
}

#[test]
fn scenes_that_cannot_be_flattened() {
    let mut skewed = unit();
    skewed[12] = b(0.5);
    let error = |o: Vec<ObjectValues>| FlatScene::from_scene(&scene(o), &arithmetic).unwrap_err();
    assert_eq!(error(vec![sphere(0, unit()), sphere(0, skewed)]), FlattenError::NotAffine);
    assert_eq!(error(vec![sphere(1, unit()), sphere(0, skewed)]), FlattenError::MissingMaterial);
    let mut nearly = unit();
    nearly[13] = b(1e-10);
    nearly[15] = b(1.0 + 1e-12);
    assert!(matrix_to_f32(&nearly).is_ok());
    assert_eq!(matrix_to_f32(&skewed).unwrap_err(), FlattenError::NotAffine);
}

fn quad() -> MeshValues {
    let corners = [(-1.0, -1.0), (1.0, -1.0), (1.0, 1.0), (-1.0, 1.0)];
    let boxes = vec![
        Aabb::from_points(&vec![vec3(-1.0, -1.0, 0.0), vec3(1.0, 1.0, 0.0)]);
        2
    ];
    MeshValues {
        positions: corners.iter().map(|c| single(c.0, c.1, 0.0)).collect(),
        indices: vec![0, 1, 2, 0, 2, 3],
        normals: None,
        blas: Bvh::build(&boxes, &arithmetic),
    }
}

fn pt_scene() -> PtSceneValues {
    let zero = Vec3::zero();
    PtSceneValues {
        objects: vec![sphere(0, unit())],
        materials: vec![PtMaterialValues {
            diffuse_gain: b(1.0),
            diffuse_color: vec3(0.5, 0.5, 0.5),
            diffuse_sigma: b(0.0),
            spec_f0: Vec3::new(b(0.5), b(0.5), b(0.5)),
            spec_f90: zero,
            spec_roughness: b(0.5),
            coat_gain: b(0.5),
            coat_roughness: b(0.001),
            fuzz_gain: b(0.0),
            fuzz_color: zero,
            glass_gain: b(0.0),
            glass_ior: b(1.5),
            glass_roughness: b(2.0),
            refr_color: zero,
            emission: vec3(1.0, 2.0, 3.0),
            glow: vec3(0.5, 0.5, 0.5),
            presence: b(1.0),
            weights: (b(1.0), b(0.0), b(0.0), b(0.0), b(0.0)),
            area_light: None,
        }],
        lights: vec![
            PtLightValues {
                shape: LightShape::Point { position: vec3(0.0, 9.0, 0.0) },
                intensity: b(2.0),
                color: vec3(1.0, 0.5, 0.25),
            },
            PtLightValues {
                shape: LightShape::Dome { env: None },
                intensity: b(1.0),
                color: Vec3::one(),
            },
        ],
        meshes: vec![quad(), quad()],
        instances: vec![InstanceValues {
            bounds: Aabb::from_points(&vec![vec3(-1.0, -1.0, 0.0), vec3(1.0, 1.0, 0.0)]),
            inverse: unit(),
            transform: unit(),
            mesh_id: 1,
            material_id: 0,
        }],
        background: zero,
        camera: camera(),
    }
}

#[test]
fn path_traced_scenes_as_buffers() {
    let g = GpuPtScene::build(&pt_scene(), &arithmetic).unwrap();
    assert_eq!(g.mesh_infos.len(), 2);
    let second = g.mesh_infos[1];
    assert_eq!(
        (second.node_offset, second.index_offset, second.vertex_offset, second.has_normals),
        (1, 6, 4, 0)
    );
    assert_eq!(g.tri_indices, [0, 1, 2, 0, 2, 3, 0, 1, 2, 0, 2, 3]);
    assert_eq!(g.vertices.len(), 24);
    assert_eq!(g.normals, vec![0; 24]);
    assert_eq!(g.instances[0].mesh_id, 1);
    assert_eq!(g.materials[0].area_light, u32::MAX);
    assert_eq!(g.materials[0].weights.0, 1.0f32.to_bits());
    let m = &g.materials[0];
    let widths = [m.spec_alpha, m.coat_alpha, m.glass_alpha].map(f32::from_bits);
    assert_eq!(widths, [0.25, 2.5e-5, 1.0]);
    // Half goes to the specular layer, and two hundredths of the rest to the coat.
    assert!((f32::from_bits(m.under_scale) - 0.49).abs() < 1e-6);
    let emission = [m.emission.x, m.emission.y, m.emission.z].map(f32::from_bits);
    assert_eq!(emission, [1.5, 2.5, 3.5]);
    assert_eq!((g.lights[0].kind, g.lights[1].kind), (0, 5));
    let l = g.lights[0].radiance;
    assert_eq!([l.x, l.y, l.z].map(f32::from_bits), [2.0, 1.0, 0.5]);
    assert_eq!(g.tlas_nodes.len(), 1);
    assert!((f32::from_bits(g.uniforms.half_width) - 2.0).abs() < 1e-6);
    assert_eq!(g.uniforms.dome_index, 1);
    assert_eq!(g.uniforms.firefly_clamp, 60.0f32.to_bits());
    assert_eq!((g.uniforms.object_count, g.uniforms.instance_count, g.uniforms.light_count), (1, 1, 2));
    assert_eq!(g.tri_indices_bytes().len(), 48);
    assert_eq!(g.mesh_infos_bytes().len(), 32);
    let mut bad = pt_scene();
    bad.instances[0].inverse[12] = b(1.0);
    assert_eq!(GpuPtScene::build(&bad, &arithmetic).unwrap_err(), FlattenError::NotAffine);
}

// ---- device scheduling -----------------------------------------------------

#[test]
fn images_in_pieces() {
    let pieces: Vec<(usize, usize)> = cut(2, 11, 4).iter().map(|p| (p.start, p.len)).collect();
    assert_eq!(pieces, [(2, 4), (6, 4), (10, 1)]);
    assert!(cut(3, 3, 4).is_empty());
    assert_eq!((pt_rows_per_band(640, None), pt_rows_per_band(0, None)), (390, 512));
    assert_eq!((pt_rows_per_band(640, Some(1)), pt_rows_per_band(640, Some(9999))), (8, 4096));
    assert_eq!((threadgroup_side(1024), threadgroup_side(128)), (16, 8));
    assert_eq!((chunk_pixels(1), chunk_pixels(10_000_000)), (1048576, 1));
    assert_eq!(slab_size(10), 10);
}

#[test]
fn waves_of_a_slab() {
    let s = first_wave(70, 64);
    assert_eq!((s.live, s.wave, s.in_first), (64, 0, true));
    assert!(is_wave_due(&s));
    let t = next_wave(s, 3, 64);
    assert_eq!((t.live, t.wave, t.in_first), (3, 1, false));
    assert!(!is_wave_due(&next_wave(t, 0, 64)));
}

#[test]
fn kernel_sources() {
    assert_eq!(whitted_source("a", "b"), "a\nb");
    assert_eq!(pt_source("a", "b", "c", "d"), "a\nb\nc\nd");
    assert_eq!(wf_source("a", "b", "c", "d", "e"), "a\nb\nc\nd\ne");
    assert!(is_watchdog_kill("Impacting Interactivity (0000000e)"));
    assert!(!is_watchdog_kill("out of memory"));
}

#[test]
fn checkpoints() {
    let accum: Vec<u32> = (0..8).map(|i| (i as f32 * 0.5).to_bits()).collect();
    let bytes = save_checkpoint(2, 1, 12, &accum);
    assert_eq!(&bytes[..4], b"RCKP");
    assert_eq!(load_checkpoint(&bytes, 2, 1), Some((12, accum.clone())));
    assert_eq!(load_checkpoint(&bytes, 1, 2), None);
    assert_eq!(load_checkpoint(&bytes[..20], 2, 1), None);
    assert_eq!((resume_at(12, 64), resume_at(99, 64)), (12, 64));
    assert_eq!((next_step(0, 64, true), next_step(62, 64, true), next_step(0, 64, false)), (4, 2, 64));
    let (sums, weights) = sum_and_weight(&accum, 2, 1);
    assert_eq!(sums[0][1], vec3(2.0, 2.5, 3.0));
    assert_eq!(weights[0][0], b(1.5));
}

#[test]
fn images_traced_in_chunks() {
    let trace = |start: usize, end: usize| {
        (start..end).map(|i| single(i as f32, 0.5, (end - start) as f32)).collect()
    };
    // 349525 pixels fit into a chunk of three samples each; all six lie in one.
    let image = render(3, 2, 3, single(9.0, 9.0, 9.0), false, &trace);
    assert_eq!(image.len(), 2);
    assert_eq!(image[1][2], vec3(5.0, 0.5, 6.0));
    let bare = render(3, 2, 3, single(9.0, 9.0, 9.0), true, &trace);
    assert_eq!(bare[0][0], vec3(9.0, 9.0, 9.0));
    let m = FlatMaterial {
        color: single(0.1, 0.2, 0.3),
        ka: 1,
        kd: 2,
        ks: 3,
        shininess: 4,
        reflectivity: 5,
        is_metal: false,
    };
    assert_eq!(mlx::column(&vec![m, m], Column::Reflectivity), [5, 5]);
    assert_eq!(metal_column(&vec![m]), [false]);
}

// ---- generated kernels -----------------------------------------------------

#[test]
fn pattern_graphs_become_code() {
    let nodes = vec![
        GraphNode::Checker {
            color_a: vec3(1.0, 0.0, 0.0),
            color_b: vec3(0.0, 0.0, 1.0),
            scale: (b(4.0), b(0.1)),
        },
        GraphNode::Mix {
            color1: NodeInput::Node(0),
            color2: NodeInput::Const(vec3(0.0, 1.0, 0.0)),
            mix: NodeInput::Const(vec3(0.25, 0.25, 0.25)),
        },
        GraphNode::Texture { tex: TexRef::Single(0), wrap: Wrap::Clamp, scale: (b(1.0), b(1.0)) },
    ];
    let images = vec![TexImage {
        width: 2,
        height: 1,
        levels: vec![
            MipLevel { width: 2, height: 1, pixels: vec![1, 2, 3, 4, 5, 6] },
            MipLevel { width: 1, height: 1, pixels: vec![7, 8, 9] },
        ],
    }];
    let materials = vec![Vec::new(), vec![(BoundField::DiffuseColor, 1)]];
    let gpu = build(&nodes, &images, &materials);
    assert_eq!(gpu.tex_data, [1, 2, 3, 4, 5, 6, 7, 8, 9]);
    assert_eq!(gpu.tex_mips.len(), 2);
    assert_eq!((gpu.tex_mips[1].offset, gpu.tex_mips[1].width), (6, 1));
    assert!(gpu.msl.contains("float3(1.0f, 0.0f, 0.0f)") || gpu.msl.contains("1.0f"));
    assert!(gpu.msl.contains("0.1f"), "{}", gpu.msl);
    assert!(gpu.msl.contains("case 1u: {"));
    assert!(!gpu.msl.contains("case 0u: {"));
    let plain = build(&nodes, &images, &vec![Vec::new()]);
    assert!(plain.msl.contains("(void)mat_id;"));
}

#[test]
fn work_in_pieces() {
    let piece = |start: usize, len: usize| Piece { start, len };
    assert_eq!(direct_bands(600), [piece(0, 256), piece(256, 256), piece(512, 88)]);
    assert_eq!(direct_bands(0), []);
    assert_eq!(path_chunks(300_000), [piece(0, 262_144), piece(262_144, 37_856)]);
    assert_eq!(slabs(2_097_153), [piece(0, 2_097_152), piece(2_097_152, 1)]);
}

#[test]
fn stopped_bands_are_sliced() {
    let (height, rows) = (40, 20);
    let mut state = BandState::new(3, 2, height);
    let mut jobs = Vec::new();
    // The watchdog stops the second band of the first sample, once.
    let mut stopped = false;
    while let Some(job) = state.job(height, rows) {
        jobs.push((job.sample, job.y0, job.rows));
        let event = if job.y0 == 20 && !stopped {
            stopped = true;
            BandEvent::Killed
        } else {
            BandEvent::Completed
        };
        state = state.after(event, height, rows).unwrap();
    }
    assert_eq!(
        jobs,
        [
            (3, 0, 20),
            (3, 20, 20),
            (3, 20, 8),
            (3, 28, 8),
            (3, 36, 4),
            (4, 0, 20),
            (4, 20, 20),
        ]
    );
}

#[test]
fn bands_that_fail() {
    let start = BandState::new(0, 1, 10);
    assert_eq!(start.job(10, 64), Some(BandJob { sample: 0, y0: 0, rows: 10 }));
    assert_eq!(start.after(BandEvent::Failed, 10, 64), Err(BandFailure::Band));
    let sliced = start.after(BandEvent::Killed, 10, 64).unwrap();
    assert_eq!(sliced.job(10, 64), Some(BandJob { sample: 0, y0: 0, rows: 8 }));
    assert_eq!(sliced.after(BandEvent::Killed, 10, 64), Err(BandFailure::Slice));
    assert_eq!(sliced.after(BandEvent::Failed, 10, 64), Err(BandFailure::Slice));
    assert_eq!(BandState::new(0, 9, 0).job(0, 64), None);
    assert_eq!(BandState::new(5, 0, 10).job(10, 64), None);
}

#[test]
fn images_read_back() {
    let data: Vec<u32> =
        [8.0f32, 4.0, 2.0, 4.0, 0.5, 0.25, 0.125, 0.0].iter().map(|x| x.to_bits()).collect();
    let over = |a: u32, b: u32| (f32::from_bits(a) / f32::from_bits(b)).to_bits();
    let out = image(&data, 2, 1, &over);
    assert_eq!(out, [[vec3(2.0, 1.0, 0.5), vec3(0.5, 0.25, 0.125)]]);
}

#[test]
fn films_read_back() {
    let aux: Vec<u32> = [
        2.0f32, 4.0, 6.0, 0.0, 0.0, -4.0, 30.0, 7.0, 1.0, 2.0, 3.0, 3.0, // hit three times
        0.0, 0.0, 0.0, 0.0, 0.0, 0.0, 5.0, 0.0, 0.0, 0.0, 0.0, 0.0, // never hit
        0.0, 0.0, 0.0, 0.0, 0.0, 0.0, 8.0, 9.0, 0.0, 0.0, 0.0, 8.0, // more than once a sample
    ]
    .iter()
    .map(|x| x.to_bits())
    .collect();
    let beauty = vec![vec![vec3(1.0, 1.0, 0.5), vec3(0.0, 0.0, 0.0), vec3(2.0, 0.0, 0.0)]];
    let names = vec![(7, "ball".to_string())];
    let film = film_of(beauty, &aux, 3, 1, b(0.25), names, &arithmetic);
    assert_eq!(film.albedo[0][0], vec3(0.5, 1.0, 1.5));
    assert_eq!(film.normal[0][0], vec3(0.0, 0.0, -1.0));
    assert_eq!(film.depth[0][0], vec3(10.0, 0.0, 0.0));
    assert_eq!(film.id[0][0], vec3(7.0, 0.75, 0.0));
    assert_eq!(film.diffuse[0][0], vec3(0.25, 0.5, 0.75));
    assert_eq!(film.specular[0][0], vec3(0.75, 0.5, 0.0));
    assert_eq!(film.depth[0][1], vec3(0.0, 0.0, 0.0));
    assert_eq!(film.id[0][2], vec3(9.0, 1.0, 0.0));
    assert_eq!(film.beauty[0][2], vec3(2.0, 0.0, 0.0));
    assert_eq!(film.manifest, [(7, "ball".to_string())]);
}

#[test]
fn texture_names() {
    assert!(matches!(texture_files(""), TextureFiles::Unnamed));
    assert!(matches!(texture_files("wood.exr"), TextureFiles::Single(s) if s == "wood.exr"));
    match texture_files("<UDIM>/skin.<UDIM>.tex") {
        TextureFiles::Tiles(tiles) => {
            assert_eq!(tiles.len(), 100);
            assert_eq!(tiles[0], (1001, "1001/skin.1001.tex".to_string()));
            assert_eq!(tiles[99], (1100, "1100/skin.1100.tex".to_string()));
        }
        other => panic!("{other:?}"),
    }
    assert!(matches!(texture_files("<UDIM"), TextureFiles::Single(_)));
    let found = tiled_texture(&vec![(1001, None), (1002, Some(5)), (1003, Some(2))]);
    assert!(matches!(found, TexRef::Udim(t) if t == [(1002, 5), (1003, 2)]));
    assert!(matches!(tiled_texture(&vec![(1001, None)]), TexRef::Missing));
}

#[test]
fn slabs_in_waves() {
    // Five pixels in slabs of three; every wave loses one path.
    let mut state = SlabState::new(7, 1, 5, 3);
    let mut told = Vec::new();
    let mut alive = 0;
    while let Some(job) = state.job() {
        match job {
            SlabJob::Generate { sample, slab } => {
                told.push((sample, slab.start, slab.len, true));
                alive = slab.len;
            }
            SlabJob::Advance { sample, slab, live, in_first } => {
                assert_eq!(live, alive);
                told.push((sample, slab.start, live, in_first));
                alive -= 1;
            }
        }
        state = state.after(alive, 5, 3);
    }
    assert_eq!(
        told,
        [
            (7, 0, 3, true),
            (7, 0, 3, true),
            (7, 0, 2, false),
            (7, 0, 1, true),
            (7, 3, 2, true),
            (7, 3, 2, true),
            (7, 3, 1, false),
        ]
    );
    // Paths that never end are given up.
    let mut state = SlabState::new(0, 1, 2, 2);
    let mut waves = 0;
    while state.job().is_some() {
        state = state.after(99, 2, 2);
        waves += 1;
    }
    assert_eq!(waves, 129);
    assert_eq!(SlabState::new(0, 4, 0, 3).job(), None);
}

#[test]
fn hair_as_it_is_asked_for() {
    let read = |text: &str| {
        let file = parse_rib_bytes(text.as_bytes()).unwrap();
        HairRequest::from_bxdf_params(&file[0].params_from(2))
    };
    let plain = read("Bxdf \"PxrMarschnerHair\" \"h\"");
    assert_eq!(plain.absorption, Absorption::OfColor(vec3(0.35, 0.2, 0.06)));
    assert_eq!((f(plain.beta_m), f(plain.beta_n), f(plain.eta)), (0.3, 0.3, 1.55));
    let dark = read("Bxdf \"PxrMarschnerHair\" \"h\" \"roughness\" [0.5] \"absorption\" [2] \"color\" [1 1 1]");
    assert_eq!(dark.absorption, Absorption::Given(vec3(2.0, 2.0, 2.0)));
    assert_eq!(f(dark.beta_m), 0.5);
    let red = read("Bxdf \"PxrMarschnerHair\" \"h\" \"color\" [1 0 0]");
    assert_eq!(red.absorption, Absorption::OfColor(vec3(1.0, 0.0, 0.0)));
    let all = read("Bxdf \"PxrMarschnerHair\" \"h\" \"absorption\" [1 2 3]");
    assert_eq!(all.absorption, Absorption::Given(vec3(1.0, 2.0, 3.0)));
}
