use render_rs::arith::Op;
use render_rs::math::Vec3;
use render_rs::parser::ast::{RibRequest, RibValue};
use render_rs::parser::scene::{MaterialBase, Transform, TransformOp};
use render_rs::parser::scene_builder::{SceneBuilder, Step};
use render_rs::parser::usd::convert::{usda_to_rib, Sum, Translation};
use render_rs::parser::usd::lexer::{token, Tok};
use render_rs::parser::usd::stage::{UsdError, UsdWarning};

const STAGE: &str = r##"#usda 1.0
(
    defaultPrim = "World"
    upAxis = "Y"
)

def Xform "World"
{
    def Camera "Cam"
    {
        float focalLength = 35
        float horizontalAperture = 36
        double3 xformOp:translate = (0, 1, 10)
        uniform token[] xformOpOrder = ["xformOp:translate"]
    }

    def DistantLight "Sun"
    {
        float inputs:intensity = 2.5
        color3f inputs:color = (1, 0.9, 0.8)
    }

    def Scope "Materials"
    {
        def Material "Red"
        {
            token outputs:surface.connect = </World/Materials/Red/PBR.outputs:surface>
            def Shader "PBR"
            {
                uniform token info:id = "UsdPreviewSurface"
                color3f inputs:diffuseColor = (0.8, 0.1, 0.05)
                float inputs:roughness = 0.35
                float inputs:metallic = 0
            }
        }
    }

    def Xform "Geo"
    {
        double3 xformOp:translate = (0, 0, 0)
        uniform token[] xformOpOrder = ["xformOp:translate"]

        def Mesh "Quad"
        {
            int[] faceVertexCounts = [4]
            int[] faceVertexIndices = [0, 1, 2, 3]
            point3f[] points = [(-5, 0, -5), (5, 0, -5), (5, 0, 5), (-5, 0, 5)]
            rel material:binding = </World/Materials/Red>
        }

        def Sphere "Ball"
        {
            double radius = 1.5
            double3 xformOp:translate = (0, 1.5, 0)
            uniform token[] xformOpOrder = ["xformOp:translate"]
        }
    }
}
"##;

fn f(bits: u64) -> f64 {
    f64::from_bits(bits)
}

fn evaluate(q: Sum) -> u64 {
    let v = match q {
        Sum::FieldOfView { focal, aperture } => {
            2.0 * (f(aperture) / (2.0 * f(focal))).atan().to_degrees()
        }
        Sum::Reciprocal(x) => 1.0 / f(x),
        Sum::Power { intensity, exposure } => {
            f(intensity) * exposure.map(|e| 2f64.powf(f(e))).unwrap_or(1.0)
        }
    };
    v.to_bits()
}

fn settle(t: &Translation) -> Vec<RibRequest> {
    let answers: Vec<(Sum, u64)> = t.questions().into_iter().map(|q| (q, evaluate(q))).collect();
    t.settle(&answers).unwrap()
}

/// Where a transform of translations and scalings takes the origin.
fn origin(builder: &SceneBuilder, t: Transform) -> [f64; 3] {
    let mut p = [0.0; 3];
    let mut t = t;
    while let Some(n) = t.node {
        let node = builder.scene().nodes[n];
        let each = |p: [f64; 3], v: Vec3, g: fn(f64, f64) -> f64| {
            [g(p[0], f(v.x)), g(p[1], f(v.y)), g(p[2], f(v.z))]
        };
        p = match node.op {
            TransformOp::Translate { by } => each(p, by, |a, b| a + b),
            TransformOp::Scale { by } => each(p, by, |a, b| a * b),
            other => panic!("{other:?}"),
        };
        t = node.parent;
    }
    p
}

#[test]
fn usda_parses_and_builds() {
    let requests = settle(&usda_to_rib(STAGE).unwrap());
    let mut builder = SceneBuilder::new(vec!["diffuseColor".to_string()]);
    builder.play(requests);
    assert_eq!(builder.run(100_000), Step::Finished);
    let scene = builder.scene();
    assert_eq!(scene.lights.len(), 1);
    assert_eq!(scene.instances.len(), 1, "mesh instance");
    assert_eq!(scene.objects.len(), 1, "sphere quadric");
    let fov = f(scene.options.fov);
    assert!((fov - 54.43).abs() < 0.1, "fov {fov}");
    let request = match scene.materials[scene.instances[0].material_id].base {
        MaterialBase::Bxdf { bxdf } => scene.bxdfs[bxdf].request,
        other => panic!("{other:?}"),
    };
    let params = builder.request(request).unwrap().params_from(2);
    assert!((f(params.get_numbers("diffuseColor").unwrap()[0]) - 0.8).abs() < 1e-6);
    assert!((f(params.get_number("specularRoughness").unwrap()) - 0.35).abs() < 1e-6);
    let center = origin(&builder, scene.objects[0].transform);
    assert!(center[2] > 5.0, "sphere should be in front: {center:?}");
}

fn names(stage: &str) -> Vec<String> {
    settle(&usda_to_rib(stage).unwrap()).into_iter().map(|r| r.name).collect()
}

#[test]
fn blocks_of_a_stage_are_balanced() {
    let names = names(STAGE);
    let begins = names.iter().filter(|n| *n == "AttributeBegin").count();
    let ends = names.iter().filter(|n| *n == "AttributeEnd").count();
    assert_eq!(begins, ends);
    assert!(begins > 0);
    let mut depth = 0i32;
    for n in &names {
        depth += (n == "AttributeBegin") as i32 - (n == "AttributeEnd") as i32;
        assert!(depth >= 0);
    }
}

#[test]
fn stages_with_the_z_axis_up_are_turned() {
    let upright = names("#usda 1.0\n(\n upAxis = \"Y\"\n)\n");
    let lying = names("#usda 1.0\n(\n upAxis = \"Z\"\n)\n");
    assert_eq!(upright, ["Projection", "Scale", "WorldBegin", "WorldEnd"]);
    assert_eq!(lying, ["Projection", "Scale", "Rotate", "WorldBegin", "WorldEnd"]);
}

#[test]
fn missing_answers_settle_nothing() {
    let t = usda_to_rib(STAGE).unwrap();
    assert!(!t.questions().is_empty());
    assert!(t.settle(&Vec::new()).is_none());
}

#[test]
fn exposure_is_part_of_the_power() {
    let t = usda_to_rib(
        "#usda 1.0\ndef SphereLight \"L\"\n{\n float inputs:intensity = 3\n float inputs:exposure = 2\n}\n",
    )
    .unwrap();
    let q = t.questions();
    assert!(q.contains(&Sum::Power {
        intensity: 3.0f64.to_bits(),
        exposure: Some(2.0f64.to_bits()),
    }));
    let light = settle(&t).into_iter().find(|r| r.name == "Light").unwrap();
    assert!(light.values.contains(&RibValue::Number(12.0f64.to_bits()))
        || light.values.contains(&RibValue::Numbers(vec![12.0f64.to_bits()])));
}

#[test]
fn tokens_of_a_stage() {
    let src = b"foo = 1.5 \"bar\" </a/b> (";
    let mut p = 0;
    let mut toks = Vec::new();
    while let Some((t, next)) = token(src, p) {
        if matches!(t, Tok::Eof) {
            break;
        }
        toks.push(t);
        p = next;
    }
    assert!(matches!(&toks[0], Tok::Ident(s) if s == "foo"));
    assert!(matches!(toks[1], Tok::Punct('=')));
    assert!(matches!(toks[2], Tok::Number(n) if f(n) == 1.5));
    assert!(matches!(&toks[3], Tok::Str(s) if s == "bar"));
    assert!(matches!(&toks[4], Tok::Path(s) if s == "/a/b"));
    assert!(matches!(toks[5], Tok::Punct('(')));
}

#[test]
fn what_is_not_carried_over_is_reported() {
    let t = usda_to_rib("#usda 1.0\ndef Mesh \"M\"\n{\n}\n").unwrap();
    assert!(matches!(&t.warnings[..], [UsdWarning::NoTopology(n)] if n == "M"));
    let t = usda_to_rib("#usda 1.0\ndef Xform \"X\" (\n references = @a.usda@\n)\n{\n}\n").unwrap();
    assert!(matches!(&t.warnings[..], [UsdWarning::MetadataIgnored(_)]));
    let t = usda_to_rib(
        "#usda 1.0\ndef Xform \"X\"\n{\n double3 xformOp:shear = (1, 0, 0)\n uniform token[] xformOpOrder = [\"xformOp:shear\"]\n}\n",
    )
    .unwrap();
    assert!(matches!(&t.warnings[..], [UsdWarning::UnsupportedOp(_)]));
}

#[test]
fn texts_that_are_no_stage() {
    let error = |s: &str| usda_to_rib(s).unwrap_err();
    assert!(matches!(error("#usda 1.0\n(\n a = 1\n"), UsdError::UnterminatedStage));
    assert!(matches!(error("def Xform \"X\" (\n a = 1\n"), UsdError::UnbalancedMetadata));
    assert!(matches!(error("def Xform \"X\"\n{\n int[] a = [1, 2\n"), UsdError::UnterminatedArray));
    assert!(matches!(error("def Xform \"X\"\n{\n float3 a = (1, 2\n"), UsdError::UnterminatedTuple));
    assert!(matches!(error("def Xform \"X\"\n{\n int[] a = [=]\n}\n"), UsdError::UnexpectedInArray('=')));
    assert!(matches!(error("def Xform \"X\"\n{\n int a = }\n"), UsdError::UnexpectedValue(_)));
    assert!(matches!(error("def Xform \"X\"\n{\n"), UsdError::UnterminatedBody));
    assert!(matches!(error("def Xform \"X\"\n{\n rel = 1\n}\n"), UsdError::NoRelName(_)));
    assert!(matches!(error("def Xform 7\n{\n}\n"), UsdError::NoPrimName(_)));
    assert!(matches!(error("def Xform \"X\" 7\n"), UsdError::NoBrace(_, _)));
    assert!(matches!(error("def Xform \"X\"\n{\n string s = \"a\\"), UsdError::UnfinishedEscape));
}

#[test]
fn mirrored_cameras_stay_mirrored() {
    let stage = "#usda 1.0\ndef Camera \"C\"\n{\n float3 xformOp:scale = (-1, 1, 1)\n}\n";
    let requests = settle(&usda_to_rib(stage).unwrap());
    let names: Vec<&str> = requests.iter().map(|r| r.name.as_str()).collect();
    assert_eq!(names, ["Projection", "Scale", "Scale", "WorldBegin", "WorldEnd"]);
    let values: Vec<f64> = requests[2]
        .values
        .iter()
        .map(|v| match v {
            RibValue::Number(x) => f(*x),
            other => panic!("{other:?}"),
        })
        .collect();
    assert_eq!(values, [-1.0, 1.0, 1.0]);
}

fn arithmetic(op: Op, x: u64, y: u64) -> u64 {
    let (x, y) = (f(x), f(y));
    let r = match op {
        Op::Times => x * y,
        Op::Over => x / y,
        Op::ArcTangent => x.atan(),
        Op::RealPower => x.powf(y),
        other => panic!("{other:?}"),
    };
    r.to_bits()
}

#[test]
fn numbers_are_worked_out() {
    let t = usda_to_rib(STAGE).unwrap();
    let (finished, settled) = (t.finish(&arithmetic), settle(&t));
    assert_eq!(finished.len(), settled.len());
    for (a, b) in finished.iter().zip(&settled) {
        assert_eq!((&a.name, &a.values), (&b.name, &b.values));
    }
    let q = Sum::Power { intensity: 3.0f64.to_bits(), exposure: Some(2.0f64.to_bits()) };
    assert_eq!(f(q.work_out(&arithmetic)), 12.0);
    let q = Sum::Power { intensity: 3.0f64.to_bits(), exposure: None };
    assert_eq!(f(q.work_out(&arithmetic)), 3.0);
    assert_eq!(f(Sum::Reciprocal((-4.0f64).to_bits()).work_out(&arithmetic)), -0.25);
    let q = Sum::FieldOfView { focal: 0.5f64.to_bits(), aperture: 1.0f64.to_bits() };
    assert_eq!(f(q.work_out(&arithmetic)), 90.0);
}
