use render_rs::arith::Op;
use render_rs::geometry::instance as geometry;
use render_rs::geometry::mesh::join_boxes;
use render_rs::math::{Matrix4, Vec3};
use render_rs::parser::ast::RibRequest;
use render_rs::parser::interpreter::{
    find_handle, handle_in, subdiv_levels, Interpreter, PatternHandle, Waiting, WarningKind,
};
use render_rs::parser::parser::parse_rib;
use render_rs::parser::placement::motion_endpoint;
use render_rs::parser::scene::{
    GeomKind, Instance, Light, MaterialBase, MeshSource, PInput, PatternNode, PrimitiveKind,
    Projection, Surface, Transform, TransformOp,
};
use render_rs::parser::scene_builder::{SceneBuilder, Step};

type Matrix = [[f64; 4]; 4];

fn f(bits: u64) -> f64 {
    f64::from_bits(bits)
}

fn b(x: f64) -> u64 {
    x.to_bits()
}

fn vec3(x: f64, y: f64, z: f64) -> Vec3 {
    Vec3::new(b(x), b(y), b(z))
}

fn bindable() -> Vec<String> {
    ["diffuseColor", "specularRoughness"].iter().map(|s| s.to_string()).collect()
}

fn build(input: &str) -> SceneBuilder {
    build_requests(parse_rib(input).unwrap())
}

fn build_requests(requests: Vec<RibRequest>) -> SceneBuilder {
    let mut builder = SceneBuilder::new(bindable());
    builder.play(requests);
    assert_eq!(builder.run(1_000_000), Step::Finished);
    builder
}

fn identity() -> Matrix {
    let mut m = [[0.0; 4]; 4];
    for i in 0..4 {
        m[i][i] = 1.0;
    }
    m
}

fn product(a: &Matrix, b: &Matrix) -> Matrix {
    let mut m = [[0.0; 4]; 4];
    for i in 0..4 {
        for j in 0..4 {
            for k in 0..4 {
                m[i][j] += a[i][k] * b[k][j];
            }
        }
    }
    m
}

/// A matrix that is given row by row for row vectors.
fn given(builder: &SceneBuilder, request: usize) -> Matrix {
    let v = builder.request(request).unwrap().numbers(0).unwrap();
    let mut m = [[0.0; 4]; 4];
    for i in 0..4 {
        for j in 0..4 {
            m[j][i] = f(v[4 * i + j]);
        }
    }
    m
}

fn matrix(builder: &SceneBuilder, t: Transform) -> Matrix {
    let node = match t.node {
        None => return identity(),
        Some(n) => builder.scene().nodes[n],
    };
    let parent = matrix(builder, node.parent);
    match node.op {
        TransformOp::Replace { request } => given(builder, request),
        TransformOp::Concat { request } => product(&parent, &given(builder, request)),
        TransformOp::Translate { by } => {
            let mut m = identity();
            m[0][3] = f(by.x);
            m[1][3] = f(by.y);
            m[2][3] = f(by.z);
            product(&parent, &m)
        }
        TransformOp::Scale { by } => {
            let mut m = identity();
            m[0][0] = f(by.x);
            m[1][1] = f(by.y);
            m[2][2] = f(by.z);
            product(&parent, &m)
        }
        TransformOp::Rotate { angle, axis } => {
            let (x, y, z) = (f(axis.x), f(axis.y), f(axis.z));
            let l = (x * x + y * y + z * z).sqrt();
            let (x, y, z) = (x / l, y / l, z / l);
            let (s, c) = f(angle).to_radians().sin_cos();
            let d = 1.0 - c;
            let m = [
                [c + x * x * d, x * y * d - z * s, x * z * d + y * s, 0.0],
                [y * x * d + z * s, c + y * y * d, y * z * d - x * s, 0.0],
                [z * x * d - y * s, z * y * d + x * s, c + z * z * d, 0.0],
                [0.0, 0.0, 0.0, 1.0],
            ];
            product(&parent, &m)
        }
    }
}

fn placed(builder: &SceneBuilder, i: &Instance) -> Matrix {
    let at = matrix(builder, i.placement);
    match i.local {
        Some(l) => product(&at, &matrix(builder, l)),
        None => at,
    }
}

fn triangles(scene: &Interpreter, mesh: usize) -> usize {
    match &scene.meshes[mesh].source {
        MeshSource::Polygons(m) => m.triangle_count(),
        other => panic!("{other:?}"),
    }
}

#[test]
fn motion_blocks_record_endpoints() {
    let input = r#"
            Format 64 64 1.0
            Shutter 0 1
            WorldBegin
                AttributeBegin
                    MotionBegin [0 1]
                        Translate 0 0 5
                        Translate 2 0 5
                    MotionEnd
                    PointsPolygons [4] [0 1 2 3]
                        "P" [-1 -1 0  1 -1 0  1 1 0  -1 1 0]
                AttributeEnd
                AttributeBegin
                    Translate 0 0 8
                    MotionBegin [0 1]
                        PointsPolygons [4] [0 1 2 3] "P" [-1 -1 0  1 -1 0  1 1 0  -1 1 0]
                        PointsPolygons [4] [0 1 2 3] "P" [-1 -1 2  1 -1 2  1 1 2  -1 1 2]
                    MotionEnd
                AttributeEnd
            WorldEnd
        "#;
    let builder = build(input);
    let scene = builder.scene();
    assert_eq!(scene.instances.len(), 2);
    let motion = scene.instances[0].motion.expect("transform motion");
    let m0 = matrix(&builder, scene.instances[0].placement);
    let m1 = matrix(&builder, motion.close);
    assert_eq!(m0, matrix(&builder, motion.open));
    assert!((m1[0][3] - m0[0][3] - 2.0).abs() < 1e-9, "endpoint {m1:?}");
    assert!(scene.instances[1].motion.is_none());
    let mesh = match &scene.meshes[1].source {
        MeshSource::Polygons(m) => m,
        other => panic!("{other:?}"),
    };
    let d = mesh.positions1.as_ref().expect("deform endpoint");
    let z1 = f32::from_bits(d[0].z);
    let z0 = f32::from_bits(mesh.positions[0].z);
    assert!((z1 - z0 - 2.0).abs() < 1e-6);
    // World bounds cover both endpoints.
    assert!(builder.has_motion(&arithmetic));
    let source = match &scene.meshes[0].source {
        MeshSource::Polygons(m) => m.bounds(),
        other => panic!("{other:?}"),
    };
    let local = join_boxes(&source);
    let (open, close) = builder.place(&scene.instances[0], &arithmetic);
    let placed = geometry::Instance::build(
        geometry::GeomKind::Mesh,
        0,
        0,
        open,
        close,
        &local,
        &arithmetic,
    );
    assert!(f(placed.world_bounds.max.x) > 2.9);
    assert!(close.is_some() && builder.place(&scene.instances[1], &arithmetic).1.is_none());
    // The boxes of the triangles cover both endpoints.
    let boxes = mesh.bounds();
    assert_eq!(boxes.len(), 2);
    assert!(boxes.iter().all(|b| f(b.min.z) == 0.0 && f(b.max.z) == 2.0));
}

#[test]
fn pattern_graph_binds_to_bxdf() {
    let input = r#"
            Format 64 64 1.0
            WorldBegin
                Pattern "PxrChecker" "check" "colorA" [1 0 0] "colorB" [0 0 1] "sScale" [4] "tScale" [4]
                Pattern "PxrMix" "blend" "reference color color1" ["check:resultRGB"] "color2" [0 1 0] "mix" [0.25]
                Bxdf "PxrSurface" "mat" "reference color diffuseColor" ["blend:resultRGB"] "specularIor" [1]
                Sphere 1 -1 1 360
            WorldEnd
        "#;
    let builder = build(input);
    let scene = builder.scene();
    assert_eq!(scene.patterns.len(), 2);
    let bxdf = match scene.materials.last().unwrap().base {
        MaterialBase::Bxdf { bxdf } => &scene.bxdfs[bxdf],
        other => panic!("{other:?}"),
    };
    assert_eq!(bxdf.bindings, [(0, 1)]);
    assert_eq!(scene.bindable[0], "diffuseColor");
    // The checker's first cell is red, mixed a quarter towards green.
    let (red, green, part) = match scene.patterns[1] {
        PatternNode::Mix { color1: PInput::Node(n), color2: PInput::Const(g), mix: PInput::Const(m) } => {
            match scene.patterns[n as usize] {
                PatternNode::Checker { color_a, scale_s, .. } => {
                    assert_eq!(scale_s, b(4.0));
                    (color_a, g, f(m.x))
                }
                other => panic!("{other:?}"),
            }
        }
        other => panic!("{other:?}"),
    };
    assert!((f(red.x) * (1.0 - part) + f(green.x) * part - 0.75).abs() < 1e-9);
    assert!((f(red.y) * (1.0 - part) + f(green.y) * part - 0.25).abs() < 1e-9);
}

#[test]
fn test_single_pass_build_with_attribute_blocks() {
    let input = r#"
            Format 320 240 1.0
            PixelSamples 2 2
            Projection "perspective" "fov" [45]
            WorldBegin
                LightSource "distantlight" 1 "from" [5 10 -10] "to" [0 0 0] "intensity" [0.8]
                AttributeBegin
                    Color 0 0 1
                    Surface "plastic"
                    Translate -2 0 5
                    Sphere 1 -1 1 360
                AttributeEnd
                AttributeBegin
                    Color 1 0 0
                    Surface "matte"
                    Translate 2 0 5
                    Cylinder 0.5 -1 1 360
                AttributeEnd
            WorldEnd
        "#;
    let builder = build(input);
    let scene = builder.scene();
    assert_eq!(scene.objects.len(), 2);
    assert_eq!(scene.lights.len(), 1);
    assert_eq!(scene.materials.len(), 2);
    assert_eq!((scene.options.samples_x, scene.options.samples_y), (2, 2));
    assert_eq!(scene.options.width, 320);
    let color = |i: usize| match scene.materials[i].base {
        MaterialBase::Surface { color, .. } => color,
        other => panic!("{other:?}"),
    };
    assert_eq!(color(0), vec3(0.0, 0.0, 1.0));
    assert_eq!(color(1), vec3(1.0, 0.0, 0.0));
    assert_eq!(
        scene.lights[0],
        Light::Distant {
            from: vec3(5.0, 10.0, -10.0),
            to: vec3(0.0, 0.0, 0.0),
            intensity: b(0.8),
        }
    );
    assert_eq!(
        scene.objects[1].kind,
        PrimitiveKind::Cylinder {
            radius: b(0.5),
            zmin: b(-1.0),
            zmax: b(1.0),
            thetamax: b(360.0),
        }
    );
}

#[test]
fn test_attribute_end_restores_state() {
    let input = r#"
            WorldBegin
                Color 1 1 1
                AttributeBegin
                    Color 0 1 0
                    Surface "metal"
                AttributeEnd
                Translate 0 0 5
                Sphere 1 -1 1 360
            WorldEnd
        "#;
    let builder = build(input);
    let scene = builder.scene();
    assert_eq!(scene.objects.len(), 1);
    match scene.materials[0].base {
        MaterialBase::Surface { surface, color, .. } => {
            assert_eq!(color, Vec3::one());
            assert_eq!(surface, Surface::Matte);
        }
        other => panic!("{other:?}"),
    }
}

#[test]
fn test_new_quadrics_and_polygon() {
    let input = r#"
            WorldBegin
                Translate 0 0 5
                Torus 1 0.3 0 360 360
                Disk 0 1 360
                Paraboloid 1 0 1 360
                Hyperboloid 1 0 -1 1 0 1 360
                Polygon "P" [-1 -1 0  1 -1 0  1 1 0  -1 1 0]
            WorldEnd
        "#;
    let builder = build(input);
    assert_eq!(builder.scene().objects.len(), 6);
}

#[test]
fn test_concat_transform_matches_translate() {
    let a = build("WorldBegin ConcatTransform [1 0 0 0 0 1 0 0 0 0 1 0 3 4 5 1] Sphere 1 -1 1 360 WorldEnd");
    let b = build("WorldBegin Translate 3 4 5 Sphere 1 -1 1 360 WorldEnd");
    let ma = matrix(&a, a.scene().objects[0].transform);
    let mb = matrix(&b, b.scene().objects[0].transform);
    assert_eq!(ma, mb);
}

#[test]
fn test_unknown_requests_warn_but_build() {
    let input = r#"
            Option "searchpath" "string shader" ["/tmp"]
            Attribute "identifier" "name" ["ball"]
            GeometricApproximation "flatness" 0.5
            WorldBegin
                SubdivisionMesh "catmull-clark" [3] [0 1 2] [] [] [] []
                Sphere 1 -1 1 360
            WorldEnd
        "#;
    let builder = build(input);
    let scene = builder.scene();
    assert_eq!(scene.objects.len(), 1);
    assert!(scene
        .warnings
        .iter()
        .any(|w| w.kind == WarningKind::SubdivisionWithoutPositions));
}

#[test]
fn test_motion_block_takes_first_sample() {
    let input = r#"
            WorldBegin
                MotionBegin [0 1]
                    Translate 0 0 5
                    Translate 0 0 9
                MotionEnd
                Sphere 1 -1 1 360
            WorldEnd
        "#;
    let builder = build(input);
    let m = matrix(&builder, builder.scene().objects[0].transform);
    assert!((m[2][3] - 5.0).abs() < 1e-12);
}

#[test]
fn test_points_polygons_builds_mesh() {
    let input = r#"
            WorldBegin
                Translate 0 0 5
                PointsPolygons [4 4] [0 1 2 3  4 5 6 7]
                    "P" [-1 -1 0  1 -1 0  1 1 0  -1 1 0
                          -1 -1 1  1 -1 1  1 1 1  -1 1 1]
            WorldEnd
        "#;
    let builder = build(input);
    let scene = builder.scene();
    assert_eq!(scene.meshes.len(), 1);
    assert_eq!(scene.instances.len(), 1);
    assert_eq!(triangles(scene, 0), 4);
    let total: usize = scene
        .instances
        .iter()
        .map(|i| match i.geometry {
            GeomKind::Mesh(m) => triangles(scene, m),
            GeomKind::Curves(_) => 0,
        })
        .sum();
    assert_eq!(total, 4);
}

#[test]
fn test_object_instance_shares_mesh() {
    let input = r#"
            WorldBegin
                ObjectBegin "quad"
                    PointsPolygons [4] [0 1 2 3] "P" [-1 -1 0  1 -1 0  1 1 0  -1 1 0]
                ObjectEnd
                Translate -2 0 5
                ObjectInstance "quad"
                Translate 4 0 0
                ObjectInstance "quad"
            WorldEnd
        "#;
    let builder = build(input);
    let scene = builder.scene();
    assert_eq!(scene.meshes.len(), 1, "one shared mesh");
    assert_eq!(scene.instances.len(), 2, "two instances");
    let a = placed(&builder, &scene.instances[0]);
    let b = placed(&builder, &scene.instances[1]);
    assert!((a[0][3] - -2.0).abs() < 1e-12);
    assert!((b[0][3] - 2.0).abs() < 1e-12);
}

#[test]
fn test_inline_archive() {
    let input = r#"
            ArchiveBegin "ball"
                Sphere 1 -1 1 360
            ArchiveEnd
            WorldBegin
                Translate 0 0 5
                ReadArchive "ball"
                Translate 3 0 0
                ReadArchive "ball"
            WorldEnd
        "#;
    let builder = build(input);
    assert_eq!(builder.scene().objects.len(), 2);
}

#[test]
fn archives_on_disk_are_asked_for() {
    let mut builder = SceneBuilder::new(bindable());
    builder.play(parse_rib("WorldBegin ReadArchive \"part.rib\" ReadArchive \"gone.rib\" WorldEnd").unwrap());
    assert_eq!(builder.run(100), Step::Asking);
    assert!(matches!(builder.asked(), Waiting::Archive { .. }));
    assert_eq!(builder.asked_for(), "part.rib");
    builder.answer(Some(b"Sphere 1 -1 1 360 Sphere 2 -2 2 360"));
    assert_eq!(builder.run(100), Step::Asking);
    assert_eq!(builder.asked_for(), "gone.rib");
    builder.answer(None);
    assert_eq!(builder.run(100), Step::Finished);
    let scene = builder.scene();
    assert_eq!(scene.objects.len(), 2);
    assert_eq!(scene.warnings.len(), 1);
    assert_eq!(scene.warnings[0].kind, WarningKind::ArchiveUnreadable);
    assert_eq!(scene.warnings[0].name, "gone.rib");
}

#[test]
fn malformed_archives_are_left_out() {
    let mut builder = SceneBuilder::new(bindable());
    builder.play(parse_rib("ReadArchive \"bad.rib\" Sphere 1 -1 1 360").unwrap());
    assert_eq!(builder.run(100), Step::Asking);
    builder.answer(Some(b"]]]"));
    assert_eq!(builder.run(100), Step::Finished);
    let scene = builder.scene();
    assert_eq!(scene.objects.len(), 1);
    assert_eq!(scene.warnings[0].kind, WarningKind::ArchiveMalformed);
}

#[test]
fn programs_are_asked_for() {
    let mut builder = SceneBuilder::new(bindable());
    builder.play(
        parse_rib("Procedural \"RunProgram\" [\"gen\" \"3\"] [-1 1 -1 1 -1 1]").unwrap(),
    );
    assert_eq!(builder.run(100), Step::Asking);
    assert!(matches!(builder.asked(), Waiting::Program { .. }));
    assert_eq!(builder.asked_for(), "gen");
    builder.answer(Some(b"Sphere 1 -1 1 360"));
    assert_eq!(builder.run(100), Step::Finished);
    assert_eq!(builder.scene().objects.len(), 1);
}

#[test]
fn polygons_with_holes_are_asked_about() {
    let input = r#"GeneralPolygon [4 4] "P" [0 0 0 4 0 0 4 4 0 0 4 0  1 1 0 2 1 0 2 2 0 1 2 0]"#;
    for possible in [true, false] {
        let mut builder = SceneBuilder::new(bindable());
        builder.play(parse_rib(input).unwrap());
        assert_eq!(builder.run(100), Step::Asking);
        let loops = builder.asked_polygon().unwrap();
        assert_eq!(loops.len(), 2);
        assert_eq!(loops[1][0], vec3(1.0, 1.0, 0.0));
        assert!(builder.room());
        builder.answer_polygon(possible);
        assert_eq!(builder.run(100), Step::Finished);
        assert_eq!(builder.scene().meshes.len(), possible as usize);
        assert_eq!(builder.scene().warnings.len(), !possible as usize);
    }
}

fn arithmetic(op: Op, x: u64, y: u64) -> u64 {
    let (x, y) = (f64::from_bits(x), f64::from_bits(y));
    let r = match op {
        Op::Plus => x + y,
        Op::Minus => x - y,
        Op::Times => x * y,
        Op::Over => x / y,
        Op::Root => x.sqrt(),
        Op::CubeRoot => x.cbrt(),
        Op::Radians => x.to_radians(),
        Op::Sine => x.sin(),
        Op::Cosine => x.cos(),
        other => panic!("{other:?}"),
    };
    r.to_bits()
}

#[test]
fn general_polygons_deform() {
    let builder = build(
        "MotionBegin [0 1] \
         PointsGeneralPolygons [1] [3] [0 1 2] \"P\" [0 0 0 1 0 0 0 1 0] \
         PointsGeneralPolygons [1] [3] [0 1 2] \"P\" [0 0 5 1 0 5 0 1 5] \
         MotionEnd",
    );
    let mesh = match &builder.scene().meshes[0].source {
        MeshSource::Polygons(m) => m,
        other => panic!("{other:?}"),
    };
    let end = mesh.positions1.as_ref().expect("deform endpoint");
    assert_eq!(f32::from_bits(end[0].z), 5.0);
    assert!(builder.has_motion(&arithmetic));
}

#[test]
fn transforms_become_matrices() {
    let builder = build(
        "Translate 1 2 3 Rotate 90 0 0 1 Scale 2 2 2 \
         ConcatTransform [1 0 0 0 0 1 0 0 0 0 1 0 5 6 7 1] Sphere 1 -1 1 360 \
         Transform [1 0 0 0 0 1 0 0 0 0 1 0 8 9 10 1] Sphere 1 -1 1 360 Identity \
         Sphere 1 -1 1 360",
    );
    let origin = |i: usize| {
        let m = builder.matrix(builder.scene().objects[i].transform, &arithmetic);
        [f(m.a.w), f(m.b.w), f(m.c.w)]
    };
    let close = |a: [f64; 3], b: [f64; 3]| a.iter().zip(&b).all(|(a, b)| (a - b).abs() < 1e-9);
    // Twice (5, 6, 7), turned about z, and moved.
    assert!(close(origin(0), [1.0 - 12.0, 2.0 + 10.0, 3.0 + 14.0]), "{:?}", origin(0));
    assert_eq!((origin(1), origin(2)), ([8.0, 9.0, 10.0], [0.0; 3]));
    assert!(!builder.has_motion(&arithmetic));
}

#[test]
fn instances_move_with_their_objects() {
    let builder = build(
        "ObjectBegin 1 Translate 0 0 4 PointsPolygons [3] [0 1 2] \"P\" [0 0 0 1 0 0 0 1 0] ObjectEnd \
         MotionBegin [0 1] Translate 1 0 0 Translate 3 0 0 MotionEnd Scale 2 2 2 ObjectInstance 1",
    );
    let (open, close) = builder.place(&builder.scene().instances[0], &arithmetic);
    let close = close.expect("endpoint");
    assert_eq!((f(open.a.w), f(open.c.w), f(open.a.x)), (1.0, 8.0, 2.0));
    assert_eq!((f(close.a.w), f(close.c.w), f(close.a.x)), (3.0, 8.0, 2.0));
    // Where the start cannot be undone there is no end.
    let none = Matrix4::scale(b(0.0), b(1.0), b(1.0));
    let one = Matrix4::identity();
    assert!(motion_endpoint(&none, &one, &one, &arithmetic).is_none());
    assert_eq!(motion_endpoint(&one, &open, &one, &arithmetic), Some(open));
}

#[test]
fn polygons_are_settled() {
    let square = "GeneralPolygon [4] \"P\" [0 0 0 4 0 0 4 4 0 0 4 0]";
    // A hole beside the polygon, with its back to it, cannot be joined to it.
    let beside = "GeneralPolygon [4 3] \"P\" [0 0 0 4 0 0 4 4 0 0 4 0  10 2 0 9 -50 0 9 54 0]";
    for (input, meshes) in [(square, 1), (beside, 0)] {
        let mut builder = SceneBuilder::new(bindable());
        builder.play(parse_rib(input).unwrap());
        assert_eq!(builder.run(100), Step::Asking);
        assert!(builder.room());
        builder.settle_polygon(&arithmetic);
        assert_eq!(builder.run(100), Step::Finished);
        assert_eq!(builder.scene().meshes.len(), meshes);
        assert_eq!(builder.scene().warnings.len(), 1 - meshes);
    }
}

#[test]
fn blocks_restore_what_they_saved() {
    let builder = build(
        "WorldBegin Translate 1 0 0 AttributeBegin Translate 0 5 0 Sides 1 ReverseOrientation \
         AttributeEnd TransformBegin Scale 2 2 2 TransformEnd Sphere 1 -1 1 360 WorldEnd",
    );
    let scene = builder.scene();
    assert_eq!(scene.state.sides, 2);
    assert!(!scene.state.reverse_orientation);
    let m = matrix(&builder, scene.objects[0].transform);
    assert_eq!((m[0][3], m[1][3], m[0][0]), (1.0, 0.0, 1.0));
    assert!(scene.attribute_stack.is_empty());
}

#[test]
fn whole_blocks_restore_what_they_saved() {
    let builder = build(
        "WorldBegin Translate 1 0 0 AttributeBegin Sides 1 \
         ObjectBegin 1 TransformBegin Translate 0 7 0 TransformEnd ObjectEnd \
         MotionBegin [0 1] Translate 0 5 0 Translate 0 6 0 MotionEnd \
         ArchiveBegin \"a\" AttributeBegin Translate 0 0 9 ArchiveEnd \
         ReadArchive \"a\" AttributeEnd TransformBegin Scale 3 3 3 TransformEnd \
         AttributeEnd Sphere 1 -1 1 360 WorldEnd",
    );
    let scene = builder.scene();
    assert_eq!(scene.state.sides, 2);
    let m = matrix(&builder, scene.objects[0].transform);
    assert_eq!((m[0][3], m[1][3], m[2][3], m[0][0]), (1.0, 0.0, 0.0, 1.0));
    assert!(scene.attribute_stack.is_empty() && scene.transform_stack.is_empty());
}

#[test]
fn camera_options_are_kept() {
    let builder = build(
        "Projection \"orthographic\" DepthOfField 2.8 0.05 4 ScreenWindow -1 1 -2 2 \
         Shutter 0.25 0.75 Imager \"background\" \"background\" [0.1 0.2 0.3]",
    );
    let o = &builder.scene().options;
    assert_eq!(o.projection, Projection::Orthographic);
    let d = o.depth_of_field.unwrap();
    assert_eq!((d.fstop, d.focal_length, d.focal_distance), (b(2.8), b(0.05), b(4.0)));
    let w = o.screen_window.unwrap();
    assert_eq!((w.left, w.right, w.bottom, w.top), (b(-1.0), b(1.0), b(-2.0), b(2.0)));
    assert_eq!((o.shutter_open, o.shutter_close), (b(0.25), b(0.75)));
    let unknown = build("Projection \"fisheye\"");
    assert_eq!(unknown.scene().warnings[0].kind, WarningKind::UnknownProjection);
}

#[test]
fn warnings_come_once() {
    let builder = build("Foo 1 Foo 2 Bar");
    let names: Vec<&str> = builder.scene().warnings.iter().map(|w| w.name.as_str()).collect();
    assert_eq!(names, ["Foo", "Bar"]);
}

#[test]
fn a_budget_that_runs_out() {
    let mut builder = SceneBuilder::new(bindable());
    builder.play(parse_rib("Sphere 1 -1 1 360 Sphere 1 -1 1 360").unwrap());
    assert_eq!(builder.run(1), Step::Going);
    assert_eq!(builder.scene().objects.len(), 1);
    assert_eq!(builder.run(100), Step::Finished);
    assert_eq!(builder.scene().objects.len(), 2);
}

#[test]
fn handles_and_levels() {
    assert_eq!(handle_in("check:resultRGB"), "check");
    assert_eq!(handle_in("check"), "check");
    let handles = vec![
        PatternHandle { name: "a".to_string(), node: 0 },
        PatternHandle { name: "b".to_string(), node: 1 },
        PatternHandle { name: "a".to_string(), node: 2 },
    ];
    assert_eq!(find_handle(&handles, "a"), Some(2));
    assert_eq!(find_handle(&handles, "c"), None);
    assert!(subdiv_levels(b(0.25)) >= subdiv_levels(b(4.0)));
}
