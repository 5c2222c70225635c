//! Transforms, rays, the primitives that they meet, and the media that they pass through.

use render_rs::arith::Op;
use render_rs::geometry::cone::Cone;
use render_rs::geometry::cylinder::Cylinder;
use render_rs::geometry::displace::fbm;
use render_rs::geometry::extra::{Disk, Hyperboloid, Paraboloid, Triangle};
use render_rs::geometry::sphere::Sphere;
use render_rs::math::{Matrix4, Point3, Vec3};
use render_rs::parser::scene::{DisplaceParams, PrimitiveKind};
use render_rs::raytracer::intersection::Intersection;
use render_rs::raytracer::pt::bxdf::{fresnel_dielectric, Frame};
use render_rs::raytracer::pt::sampler::Pcg32;
use render_rs::raytracer::pt::volume::{
    distance_pdf_approx, equiangular_pdf, equiangular_sample, sample_distance, sss_medium,
    transmittance, MediumEvent, MediumValues,
};
use render_rs::raytracer::ray::Ray;

fn arithmetic(op: Op, a: u64, b: u64) -> u64 {
    let (x, y) = (f64::from_bits(a), f64::from_bits(b));
    let r = match op {
        Op::Plus => x + y,
        Op::Minus => x - y,
        Op::Times => x * y,
        Op::Over => x / y,
        Op::Root => x.sqrt(),
        Op::Floor => x.floor(),
        Op::CubeRoot => x.cbrt(),
        Op::Degrees => x.atan2(y).to_degrees(),
        Op::Radians => x.to_radians(),
        Op::Sine => x.sin(),
        Op::Cosine => x.cos(),
        Op::Tangent => x.tan(),
        Op::ArcTangent => x.atan(),
        Op::Exponential => x.exp(),
        Op::Logarithm => x.ln(),
        Op::Power => x.powi(y as i32),
        Op::RealPower => x.powf(y),
    };
    r.to_bits()
}

fn f(bits: u64) -> f64 {
    f64::from_bits(bits)
}

fn b(x: f64) -> u64 {
    x.to_bits()
}

fn point(x: f64, y: f64, z: f64) -> Point3 {
    Point3::new(b(x), b(y), b(z))
}

fn vector(x: f64, y: f64, z: f64) -> Vec3 {
    Vec3::new(b(x), b(y), b(z))
}

fn ray(o: [f64; 3], d: [f64; 3]) -> Ray {
    Ray::new(point(o[0], o[1], o[2]), vector(d[0], d[1], d[2]), &arithmetic)
}

fn close(a: u64, x: f64) -> bool {
    (f(a) - x).abs() < 1e-9
}

fn sphere() -> Sphere {
    Sphere::new(b(1.0), b(-1.0), b(1.0), b(360.0), 0, Matrix4::identity(), &arithmetic)
}

#[test]
fn test_identity() {
    let p = point(1.0, 2.0, 3.0);
    assert_eq!(Matrix4::identity().transform_point(&p, &arithmetic), p);
}

#[test]
fn test_translate() {
    let m = Matrix4::translate(b(1.0), b(2.0), b(3.0));
    let result = m.transform_point(&point(4.0, 5.0, 6.0), &arithmetic);
    assert_eq!(result, point(5.0, 7.0, 9.0));
}

#[test]
fn test_scale() {
    let m = Matrix4::scale(b(2.0), b(3.0), b(4.0));
    let result = m.transform_point(&point(1.0, 2.0, 3.0), &arithmetic);
    assert_eq!(result, point(2.0, 6.0, 12.0));
}

#[test]
fn test_rotate_z() {
    let m = Matrix4::rotate_z(b(90.0), &arithmetic);
    let result = m.transform_point(&point(1.0, 0.0, 0.0), &arithmetic);
    assert!(f(result.x).abs() <= 1e-10);
    assert!((f(result.y) - 1.0).abs() <= 1e-10);
    assert!(f(result.z).abs() <= 1e-10);
}

#[test]
fn test_matrix_multiply() {
    let t = Matrix4::translate(b(1.0), b(0.0), b(0.0));
    let s = Matrix4::scale(b(2.0), b(2.0), b(2.0));
    let combined = t.multiply(&s, &arithmetic);
    let result = combined.transform_point(&point(1.0, 1.0, 1.0), &arithmetic);
    assert_eq!(result, point(3.0, 2.0, 2.0));
}

#[test]
fn turns_about_axes() {
    let v = vector(1.0, 2.0, 3.0);
    let same = |m: Matrix4, n: Matrix4| {
        let (p, q) = (m.transform_vec(&v, &arithmetic), n.transform_vec(&v, &arithmetic));
        close(p.x, f(q.x)) && close(p.y, f(q.y)) && close(p.z, f(q.z))
    };
    let about = |x: f64, y: f64, z: f64| Matrix4::rotate(b(30.0), b(x), b(y), b(z), &arithmetic);
    assert!(same(about(2.0, 0.0, 0.0), Matrix4::rotate_x(b(30.0), &arithmetic)));
    assert!(same(about(0.0, 2.0, 0.0), Matrix4::rotate_y(b(30.0), &arithmetic)));
    assert!(same(about(0.0, 0.0, 2.0), Matrix4::rotate_z(b(30.0), &arithmetic)));
    assert!(!same(about(0.0, 0.0, 2.0), Matrix4::rotate_x(b(30.0), &arithmetic)));
}

#[test]
fn inverses_undo() {
    let m = Matrix4::translate(b(1.0), b(-2.0), b(3.0))
        .multiply(&Matrix4::rotate(b(40.0), b(1.0), b(2.0), b(-1.0), &arithmetic), &arithmetic)
        .multiply(&Matrix4::scale(b(2.0), b(3.0), b(0.5)), &arithmetic);
    let inverse = m.inverse(&arithmetic).unwrap();
    let p = m.transform_point(&point(4.0, 5.0, 6.0), &arithmetic);
    let q = inverse.transform_point(&p, &arithmetic);
    assert!(close(q.x, 4.0) && close(q.y, 5.0) && close(q.z, 6.0));
    assert!(close(m.approx_scale(&arithmetic), 3.0f64.cbrt()));
    assert!(Matrix4::scale(b(1.0), b(0.0), b(1.0)).inverse(&arithmetic).is_none());
    // A normal stays at right angles to a vector of the surface.
    let (n, t) = (vector(1.0, 1.0, 0.0), vector(1.0, -1.0, 5.0));
    let (n, t) = (inverse.transform_normal(&n, &arithmetic), m.transform_vec(&t, &arithmetic));
    assert!((f(n.x) * f(t.x) + f(n.y) * f(t.y) + f(n.z) * f(t.z)).abs() < 1e-9);
    let (r0, _, _, r3) = Matrix4::translate(b(7.0), b(0.0), b(0.0)).rows();
    assert_eq!((f(r0.w), f(r3.w)), (7.0, 1.0));
}

#[test]
fn test_point3_creation() {
    let p = point(1.0, 2.0, 3.0);
    assert_eq!(f(p.x), 1.0);
    assert_eq!(f(p.y), 2.0);
    assert_eq!(f(p.z), 3.0);
    assert_eq!(p.to_vec3(), vector(1.0, 2.0, 3.0));
    assert_eq!(Point3::origin(), point(0.0, 0.0, 0.0));
}

#[test]
fn test_point3_add_vec3() {
    let result = point(1.0, 2.0, 3.0).step(&vector(4.0, 5.0, 6.0), &arithmetic);
    assert_eq!(result, point(5.0, 7.0, 9.0));
}

#[test]
fn test_point3_sub_vec3() {
    let result = point(5.0, 7.0, 9.0).step_back(&vector(4.0, 5.0, 6.0), &arithmetic);
    assert_eq!(result, point(1.0, 2.0, 3.0));
}

#[test]
fn test_point3_sub_point3() {
    let result = point(5.0, 7.0, 9.0).from_point(&point(1.0, 2.0, 3.0), &arithmetic);
    assert_eq!(result, vector(4.0, 5.0, 6.0));
}

#[test]
fn test_point3_distance() {
    let (p1, p2) = (point(0.0, 0.0, 0.0), point(3.0, 4.0, 0.0));
    assert_eq!(f(p1.distance(&p2, &arithmetic)), 5.0);
    assert_eq!(f(p1.distance_squared(&p2, &arithmetic)), 25.0);
}

#[test]
fn test_ray_creation() {
    let r = ray([0.0, 0.0, 0.0], [1.0, 0.0, 0.0]);
    assert_eq!(r.origin, point(0.0, 0.0, 0.0));
    let d = [f(r.direction.x), f(r.direction.y), f(r.direction.z)];
    assert_eq!((d[0] * d[0] + d[1] * d[1] + d[2] * d[2]).sqrt(), 1.0);
    assert_eq!(f(r.time), 0.0);
    assert_eq!(f(r.with_time(b(0.25)).time), 0.25);
    assert_eq!(ray([0.0; 3], [0.0, 3.0, 4.0]).direction, vector(0.0, 0.6, 0.8));
}

#[test]
fn test_ray_at() {
    let r = ray([1.0, 2.0, 3.0], [1.0, 0.0, 0.0]);
    assert_eq!(r.at(b(5.0), &arithmetic), point(6.0, 2.0, 3.0));
}

#[test]
fn hits_are_built() {
    let hit = Intersection::new(b(2.0), point(1.0, 0.0, 0.0), vector(0.0, 0.0, 2.0), 3, &arithmetic);
    assert_eq!(hit.normal, vector(0.0, 0.0, 1.0));
    assert!(hit.front_face);
    let hit = hit
        .with_front_face(false)
        .with_st((b(0.25), b(0.5)), b(4.0))
        .with_tangent(vector(1.0, 0.0, 0.0));
    assert!(!hit.front_face);
    assert_eq!((f(hit.st.0), f(hit.st.1), f(hit.st_density)), (0.25, 0.5, 4.0));
    assert_eq!((hit.tangent, hit.material_id, f(hit.t)), (vector(1.0, 0.0, 0.0), 3, 2.0));
}

#[test]
fn test_sphere_intersection() {
    let r = ray([0.0, 0.0, -5.0], [0.0, 0.0, 1.0]);
    let intersection = sphere().intersect(&r, &arithmetic);
    assert!(intersection.is_some());
    assert!(f(intersection.unwrap().t) > 0.0);
}

#[test]
fn sphere_parametric_st() {
    let hit = sphere().intersect(&ray([-5.0, 0.0, 0.0], [1.0, 0.0, 0.0]), &arithmetic).expect("hit");
    assert!(close(hit.st.0, 0.5), "u = {}", f(hit.st.0));
    assert!(close(hit.st.1, 0.5), "v = {}", f(hit.st.1));
    let expect = 1.0 / (2.0 * std::f64::consts::PI * 2.0f64).sqrt();
    assert!(close(hit.st_density, expect), "density = {} vs {}", f(hit.st_density), expect);
}

#[test]
fn test_sphere_miss() {
    let r = ray([5.0, 5.0, -5.0], [0.0, 0.0, 1.0]);
    assert!(sphere().intersect(&r, &arithmetic).is_none());
}

#[test]
fn spheres_from_inside_and_cut() {
    // From inside, the far side, seen from behind.
    let hit = sphere().intersect(&ray([0.0; 3], [1.0, 0.0, 0.0]), &arithmetic).unwrap();
    assert!(close(hit.t, 1.0) && !hit.front_face);
    // Twice as large, the distance is measured in the world.
    let m = Matrix4::scale(b(2.0), b(2.0), b(2.0));
    let large = Sphere::new(b(1.0), b(-1.0), b(1.0), b(360.0), 4, m, &arithmetic);
    let hit = large.intersect(&ray([-5.0, 0.0, 0.0], [1.0, 0.0, 0.0]), &arithmetic).unwrap();
    assert!(close(hit.t, 3.0) && hit.front_face && hit.material_id == 4);
    // Cut off above the equator, and swept half around.
    let cut = Sphere::new(b(1.0), b(-1.0), b(-0.5), b(360.0), 0, Matrix4::identity(), &arithmetic);
    assert!(cut.intersect(&ray([-5.0, 0.0, 0.0], [1.0, 0.0, 0.0]), &arithmetic).is_none());
    let half = Sphere::new(b(1.0), b(-1.0), b(1.0), b(90.0), 0, Matrix4::identity(), &arithmetic);
    // Where the near side is swept out, the far side is seen through the gap.
    let hit = half.intersect(&ray([0.0, -5.0, 0.0], [0.0, 1.0, 0.0]), &arithmetic).unwrap();
    assert!(close(hit.t, 6.0) && close(hit.point.y, 1.0));
    assert!(half.intersect(&ray([-0.5, -5.0, 0.0], [0.0, 1.0, 0.0]), &arithmetic).is_none());
    assert!(half.intersect(&ray([0.5, 5.0, 0.0], [0.0, -1.0, 0.0]), &arithmetic).is_some());
    assert!(matches!(cut.describe().kind, PrimitiveKind::Sphere { zmax, .. } if f(zmax) == -0.5));
    assert_eq!(large.describe().place.transform, m);
}

#[test]
fn bowls_are_seen_from_above() {
    let m = Matrix4::identity();
    let bowl = Sphere::new(b(1.0), b(-1.0), b(0.0), b(360.0), 0, m, &arithmetic);
    let hit = bowl.intersect(&ray([0.0, 0.0, 5.0], [0.0, 0.0, -1.0]), &arithmetic).unwrap();
    assert!(close(hit.t, 6.0) && close(hit.point.z, -1.0) && !hit.front_face);
    // The wall of a half cylinder, through the half that is not there.
    let wall = Cylinder::new(b(1.0), b(-1.0), b(1.0), b(180.0), 0, m, &arithmetic);
    let hit = wall.intersect(&ray([0.0, -5.0, 0.0], [0.0, 1.0, 0.0]), &arithmetic).unwrap();
    assert!(close(hit.t, 6.0) && close(hit.point.y, 1.0));
}

fn cylinder() -> Cylinder {
    Cylinder::new(b(1.0), b(-1.0), b(1.0), b(360.0), 0, Matrix4::identity(), &arithmetic)
}

#[test]
fn test_cylinder_intersection() {
    let r = ray([2.0, 0.0, 0.0], [-1.0, 0.0, 0.0]);
    assert!(cylinder().intersect(&r, &arithmetic).is_some());
}

#[test]
fn test_cylinder_miss() {
    let r = ray([5.0, 5.0, -5.0], [0.0, 0.0, 1.0]);
    assert!(cylinder().intersect(&r, &arithmetic).is_none());
}

#[test]
fn cylinders_are_open() {
    // Over the near edge, onto the inside of the far wall.
    let hit = cylinder().intersect(&ray([-2.0, 0.0, 2.0], [1.0, 0.0, -0.8]), &arithmetic).unwrap();
    assert!(close(hit.point.x, 1.0) && close(hit.point.z, -0.4));
    // Along the axis nothing is met.
    assert!(cylinder().intersect(&ray([0.0, 0.0, -5.0], [0.0, 0.0, 1.0]), &arithmetic).is_none());
    assert!(matches!(cylinder().describe().kind, PrimitiveKind::Cylinder { .. }));
}

fn cone() -> Cone {
    Cone::new(b(2.0), b(1.0), b(360.0), 0, Matrix4::identity(), &arithmetic)
}

#[test]
fn test_cone_intersection() {
    let r = ray([0.0, 0.0, -5.0], [0.0, 0.0, 1.0]);
    assert!(cone().intersect(&r, &arithmetic).is_some());
}

#[test]
fn test_cone_miss() {
    let r = ray([5.0, 5.0, -5.0], [0.0, 0.0, 1.0]);
    assert!(cone().intersect(&r, &arithmetic).is_none());
}

#[test]
fn cones_have_parameters() {
    // Half way up the radius is a half.
    let hit = cone().intersect(&ray([-5.0, 0.0, 1.0], [1.0, 0.0, 0.0]), &arithmetic).unwrap();
    assert!(close(hit.point.x, -0.5) && close(hit.st.0, 0.5) && close(hit.st.1, 0.5));
    let density = 1.0 / (0.5 * 2.0 * std::f64::consts::PI * 5.0f64.sqrt()).sqrt();
    assert!(close(hit.st_density, density));
    assert!(cone().intersect(&ray([-5.0, 0.0, 3.0], [1.0, 0.0, 0.0]), &arithmetic).is_none());
    assert!(matches!(cone().describe().kind, PrimitiveKind::Cone { height, .. } if f(height) == 2.0));
}

#[test]
fn disk_hit_and_theta() {
    let disk = Disk::new(b(1.0), b(2.0), b(360.0), 0, Matrix4::identity(), &arithmetic);
    let hit = disk.intersect(&ray([0.5, 0.5, -3.0], [0.0, 0.0, 1.0]), &arithmetic).expect("should hit");
    assert!(close(hit.t, 4.0));
    let partial = Disk::new(b(1.0), b(2.0), b(90.0), 0, Matrix4::identity(), &arithmetic);
    let ray2 = ray([0.5, -0.5, -3.0], [0.0, 0.0, 1.0]);
    assert!(partial.intersect(&ray2, &arithmetic).is_none());
    // Past the rim, level with it and behind.
    assert!(disk.intersect(&ray([2.0, 2.0, -3.0], [0.0, 0.0, 1.0]), &arithmetic).is_none());
    assert!(disk.intersect(&ray([-5.0, 0.0, 1.0], [1.0, 0.0, 0.0]), &arithmetic).is_none());
    assert!(disk.intersect(&ray([0.0, 0.0, 2.0], [0.0, 0.0, 1.0]), &arithmetic).is_none());
    assert!(matches!(disk.describe().kind, PrimitiveKind::Disk { .. }));
}

#[test]
fn paraboloid_hit() {
    let make = |zmin: f64, zmax: f64| {
        Paraboloid::new(b(1.0), b(zmin), b(zmax), b(360.0), 0, Matrix4::identity(), &arithmetic)
    };
    let r = ray([0.5, 0.0, -2.0], [0.0, 0.0, 1.0]);
    let hit = make(0.0, 1.0).intersect(&r, &arithmetic).expect("should hit");
    assert!(close(hit.point.z, 0.25), "z = {}", f(hit.point.z));
    // Cut off below, and without a height.
    assert!(make(0.5, 1.0).intersect(&r, &arithmetic).is_none());
    assert!(make(0.0, 0.0).intersect(&r, &arithmetic).is_none());
    assert!(matches!(make(0.0, 1.0).describe().kind, PrimitiveKind::Paraboloid { .. }));
}

#[test]
fn hyperboloid_cylinder_case() {
    let make = |p1: Vec3, p2: Vec3| {
        Hyperboloid::new(p1, p2, b(360.0), 0, Matrix4::identity(), &arithmetic)
    };
    let hyp = make(vector(1.0, 0.0, -1.0), vector(1.0, 0.0, 1.0));
    let hit = hyp.intersect(&ray([-5.0, 0.0, 0.0], [1.0, 0.0, 0.0]), &arithmetic).expect("should hit");
    assert!(close(hit.t, 4.0), "t = {}", f(hit.t));
    assert!(hyp.intersect(&ray([-5.0, 0.0, 2.0], [1.0, 0.0, 0.0]), &arithmetic).is_none());
    // At one height it is a ring.
    let ring = make(vector(1.0, 0.0, 0.0), vector(2.0, 0.0, 0.0));
    assert!(ring.intersect(&ray([1.5, 0.0, -1.0], [0.0, 0.0, 1.0]), &arithmetic).is_some());
    assert!(ring.intersect(&ray([0.5, 0.0, -1.0], [0.0, 0.0, 1.0]), &arithmetic).is_none());
    assert!(matches!(hyp.describe().kind, PrimitiveKind::Hyperboloid { .. }));
}

#[test]
fn triangle_hit_double_sided() {
    let tri = Triangle::new(
        vector(-1.0, -1.0, 0.0),
        vector(1.0, -1.0, 0.0),
        vector(0.0, 1.0, 0.0),
        0,
        Matrix4::identity(),
        &arithmetic,
    );
    let front = ray([0.0, 0.0, -2.0], [0.0, 0.0, 1.0]);
    let back = ray([0.0, 0.0, 2.0], [0.0, 0.0, -1.0]);
    let hf = tri.intersect(&front, &arithmetic).expect("front hit");
    let hb = tri.intersect(&back, &arithmetic).expect("back hit");
    assert!(f(hf.normal.z) < 0.0);
    assert!(f(hb.normal.z) > 0.0);
    assert!(!hf.front_face && hb.front_face);
    assert!(tri.intersect(&ray([1.0, 1.0, -2.0], [0.0, 0.0, 1.0]), &arithmetic).is_none());
    assert!(matches!(tri.describe().kind, PrimitiveKind::Triangle { .. }));
}

type Field = fn(Point3) -> u64;

/// A grey medium that is everywhere.
fn fog(sigma_s: f64, sigma_a: f64) -> MediumValues {
    MediumValues {
        sigma_s: vector(sigma_s, sigma_s, sigma_s),
        sigma_t: vector(sigma_s + sigma_a, sigma_s + sigma_a, sigma_s + sigma_a),
        majorant: b(sigma_s + sigma_a),
        max_distance: b(f64::INFINITY),
    }
}

#[test]
fn homogeneous_estimator_unbiased() {
    let m = fog(0.6, 0.4);
    let r = ray([0.0; 3], [0.0, 0.0, 1.0]);
    let t_max = 1.3;
    let mut rng = Pcg32::for_pixel_sample(3, 7);
    let n = 200_000;
    let (mut pass, mut scat) = (0.0, 0.0);
    for _ in 0..n {
        match sample_distance(
            &m,
            None::<&Field>,
            &r.origin,
            &r.direction,
            b(t_max),
            &Vec3::one(),
            &mut rng,
            &arithmetic,
        ) {
            MediumEvent::Pass { weight } => pass += f(weight.x),
            MediumEvent::Scatter { weight, .. } => scat += f(weight.x),
        }
    }
    let (pass, scat) = (pass / n as f64, scat / n as f64);
    let expected_pass = (-1.0f64 * t_max).exp();
    let expected_scat = 0.6 * (1.0 - expected_pass);
    assert!((pass - expected_pass).abs() < 0.01, "pass {pass} vs {expected_pass}");
    assert!((scat - expected_scat).abs() < 0.01, "scat {scat} vs {expected_scat}");
}

/// Clouds: noise, cut off by how much of space it covers and sharpened.
fn clouds(p: Point3) -> u64 {
    let params = DisplaceParams {
        amplitude: b(0.1),
        frequency: b(0.8),
        octaves: 3,
        gain: b(0.5),
        lacunarity: b(2.0),
        offset: vector(0.0, 0.0, 0.0),
    };
    let n = 0.5 + 0.5 * f(fbm(p.to_vec3(), &params, &arithmetic));
    b(((n - 1.0 + 0.6) * 3.0).clamp(0.0, 1.0))
}

#[test]
fn ratio_tracking_matches_quadrature() {
    let m = fog(0.7, 0.3);
    let r = ray([0.3, 0.2, -1.0], [0.2, 0.1, 1.0]);
    let dist = 4.0;
    let steps = 20_000;
    let mut tau = 0.0;
    for i in 0..steps {
        let t = (i as f64 + 0.5) / steps as f64 * dist;
        tau += f(clouds(r.at(b(t), &arithmetic))) * (dist / steps as f64);
    }
    let expected = (-1.0f64 * tau).exp();
    let mut rng = Pcg32::for_pixel_sample(11, 4);
    let n = 30_000;
    let mut sum = 0.0;
    for _ in 0..n {
        let left =
            transmittance(&m, Some(&clouds), &r.origin, &r.direction, b(dist), &mut rng, &arithmetic);
        sum += f(left.x);
    }
    let mean = sum / n as f64;
    assert!((mean - expected).abs() < 0.02, "ratio tracking {mean} vs quadrature {expected}");
}

#[test]
fn delta_tracking_agrees_with_the_closed_form() {
    let m = fog(0.6, 0.4);
    let r = ray([0.0; 3], [0.0, 0.0, 1.0]);
    let dense = |_: Point3| b(1.0);
    let mut rng = Pcg32::for_pixel_sample(5, 2);
    let n = 20_000;
    let mut pass = 0.0;
    for _ in 0..n {
        let event = sample_distance(
            &m,
            Some(&dense),
            &r.origin,
            &r.direction,
            b(1.3),
            &Vec3::one(),
            &mut rng,
            &arithmetic,
        );
        if let MediumEvent::Pass { weight } = event {
            pass += f(weight.x);
        }
    }
    assert!((pass / n as f64 - (-1.3f64).exp()).abs() < 0.02);
    // A medium reaches only so far, and a clear one does nothing.
    let near = MediumValues { max_distance: b(0.5), ..m };
    let left = |m: &MediumValues| {
        let mut rng = Pcg32::for_pixel_sample(1, 1);
        let none = None::<&Field>;
        f(transmittance(m, none, &r.origin, &r.direction, b(2.0), &mut rng, &arithmetic).x)
    };
    assert_eq!(left(&m), (-2.0f64).exp());
    assert_eq!(left(&near), (-0.5f64).exp());
    let mut rng = Pcg32::for_pixel_sample(1, 1);
    let event = sample_distance(
        &fog(0.0, 0.0),
        None::<&Field>,
        &r.origin,
        &r.direction,
        b(2.0),
        &Vec3::one(),
        &mut rng,
        &arithmetic,
    );
    assert_eq!(event, MediumEvent::Pass { weight: Vec3::one() });
}

#[test]
fn distances_by_angle() {
    let (o, d, light) = (point(0.0, 0.0, 0.0), vector(0.0, 0.0, 1.0), point(1.0, 0.0, 2.0));
    // Half of the angles of a line about the nearest place are before that place.
    let (t, pdf) = equiangular_sample(&o, &d, b(4.0), &light, b(0.5), &arithmetic);
    assert!(close(t, 2.0));
    assert!(close(pdf, 1.0 / (2.0 * 2.0f64.atan())));
    assert_eq!(equiangular_pdf(&o, &d, b(4.0), &light, t, &arithmetic), pdf);
    let mean = vector(1.0, 2.0, 3.0);
    let at = |t: f64| f(distance_pdf_approx(&mean, b(t), b(1.0), &arithmetic));
    assert_eq!((at(0.5), at(1.0)), (2.0 * (-1.0f64).exp(), (-2.0f64).exp()));
}

#[test]
fn media_below_surfaces() {
    let m = sss_medium(&vector(0.0, 0.8, 2.0), &vector(1.0, 1.0, 0.0), &arithmetic);
    let (a, s) = (m.sigma_a, m.sigma_s);
    assert_eq!((f(m.g), m.density, m.emission), (0.0, None, vector(0.0, 0.0, 0.0)));
    assert_eq!(f(m.max_distance), f64::INFINITY);
    assert_eq!(m, sss_medium(&vector(-1.0, 0.8, 1.0), &vector(1.0, 1.0, 0.0), &arithmetic));
    assert_eq!((f(a.x), f(s.x)), (1.85 + 7.0 * 0.8f64.powi(3), 0.0));
    assert!((f(a.y) + f(s.y) - 1.05).abs() < 1e-12);
    assert!((f(a.z) + f(s.z) - (0.85 + 7.0 * 0.2f64.powi(3)) / 1e-5).abs() < 1e-6);
}

#[test]
fn frames_turn_back_and_forth() {
    for n in [vector(0.0, 0.0, 1.0), vector(0.96, 0.28, 0.0)] {
        let frame = Frame::new(n, &arithmetic);
        let up = frame.to_local(&n, &arithmetic);
        assert!(close(up.x, 0.0) && close(up.y, 0.0) && close(up.z, 1.0));
        let w = vector(0.1, -0.2, 0.3);
        let back = frame.to_world(&frame.to_local(&w, &arithmetic), &arithmetic);
        assert!(close(back.x, 0.1) && close(back.y, -0.2) && close(back.z, 0.3));
    }
}

#[test]
fn boundaries_turn_light_back() {
    let at = |cos: f64, eta: f64| f(fresnel_dielectric(b(cos), b(eta), &arithmetic));
    assert!((at(1.0, 1.5) - 0.04).abs() < 1e-12);
    assert_eq!(at(0.0, 1.5), 1.0);
    // From the denser side, at a slant, nothing goes through.
    assert_eq!(at(0.5, 1.0 / 1.5), 1.0);
}
