//! Backend-neutral scene flattening: plain single-precision data with no GPU
//! dependencies.
//!
//! Material tables are per-object (entry i is the material object i references),
//! so a hit-object index doubles as a material index.

use crate::arith;
use crate::arith::{compute, computes, over, times, Op};
use crate::double;
use crate::geometry::mesh::Single3;
use crate::math::{Vec3, TWO, ZERO};
use crate::parser::scene::PrimitiveKind;
use vstd::prelude::*;

verus! {

/// A placed primitive: row-major transforms by the bits of their doubles.
#[derive(Debug)]
pub struct ObjectValues {
    pub kind: PrimitiveKind,
    pub inverse: [u64; 16],
    pub transform: [u64; 16],
    pub material_id: usize,
}

/// A material, with the shininess and reflectivity that its kind gives it.
#[derive(Clone, Copy, Debug, PartialEq, Eq, Structural)]
pub struct MaterialValues {
    pub color: Vec3,
    pub ka: u64,
    pub kd: u64,
    pub ks: u64,
    pub shininess: u64,
    pub reflectivity: u64,
    pub is_metal: bool,
}

/// Where a light is.
#[derive(Clone, Copy, Debug, PartialEq, Eq, Structural)]
pub enum LightPlace {
    Point { position: Vec3 },
    Distant { direction: Vec3 },
}

#[derive(Clone, Copy, Debug, PartialEq, Eq, Structural)]
pub struct LightValues {
    pub place: LightPlace,
    pub intensity: u64,
    pub color: Vec3,
}

/// A camera frame, the vertical field of view in degrees, and how many pixels the image has.
#[derive(Clone, Copy, Debug, PartialEq, Eq, Structural)]
pub struct CameraValues {
    pub eye: Vec3,
    pub forward: Vec3,
    pub right: Vec3,
    pub up: Vec3,
    pub fov: u64,
    pub width: u32,
    pub height: u32,
}

/// A scene by its values.
#[derive(Debug)]
pub struct SceneValues {
    pub objects: Vec<ObjectValues>,
    pub materials: Vec<MaterialValues>,
    pub lights: Vec<LightValues>,
    pub background: Vec3,
    pub camera: CameraValues,
    pub pixel_samples: (u32, u32),
}

/// A primitive in single precision.
#[derive(Debug)]
pub struct FlatObject {
    pub kind: PrimitiveKind,
    /// Row-major world-to-local transform.
    pub inv: Vec<u32>,
    /// Row-major local-to-world transform.
    pub fwd: Vec<u32>,
}

/// What a flat object is.
pub struct FlatObjectView {
    pub kind: PrimitiveKind,
    pub inv: Seq<u32>,
    pub fwd: Seq<u32>,
}

impl View for FlatObject {
    type V = FlatObjectView;

    open spec fn view(&self) -> FlatObjectView {
        FlatObjectView { kind: self.kind, inv: self.inv@, fwd: self.fwd@ }
    }
}

pub open spec fn flat_object_views(v: Seq<FlatObject>) -> Seq<FlatObjectView> {
    v.map_values(|o: FlatObject| o@)
}

/// A material in single precision.
#[derive(Clone, Copy, Debug, PartialEq, Eq, Structural)]
pub struct FlatMaterial {
    pub color: Single3,
    pub ka: u32,
    pub kd: u32,
    pub ks: u32,
    pub shininess: u32,
    pub reflectivity: u32,
    pub is_metal: bool,
}

#[derive(Clone, Copy, Debug, PartialEq, Eq, Structural)]
pub enum FlatLightKind {
    Point { position: Single3 },
    Distant { direction: Single3 },
}

#[derive(Clone, Copy, Debug, PartialEq, Eq, Structural)]
pub struct FlatLight {
    pub kind: FlatLightKind,
    pub intensity: u32,
    pub color: Single3,
}

#[derive(Clone, Copy, Debug, PartialEq, Eq, Structural)]
pub struct FlatCamera {
    pub eye: Single3,
    pub forward: Single3,
    pub right: Single3,
    pub up: Single3,
    pub half_width: u32,
    pub half_height: u32,
}

/// A flattened scene.
#[derive(Debug)]
pub struct FlatScene {
    pub objects: Vec<FlatObject>,
    pub materials: Vec<FlatMaterial>,
    pub lights: Vec<FlatLight>,
    pub background: Single3,
    pub camera: FlatCamera,
    pub pixel_samples: (u32, u32),
    pub width: u32,
    pub height: u32,
}

/// What a flattened scene is.
pub struct FlatSceneView {
    pub objects: Seq<FlatObjectView>,
    pub materials: Seq<FlatMaterial>,
    pub lights: Seq<FlatLight>,
    pub background: Single3,
    pub camera: FlatCamera,
    pub pixel_samples: (u32, u32),
    pub width: u32,
    pub height: u32,
}

impl View for FlatScene {
    type V = FlatSceneView;

    open spec fn view(&self) -> FlatSceneView {
        FlatSceneView {
            objects: flat_object_views(self.objects@),
            materials: self.materials@,
            lights: self.lights@,
            background: self.background,
            camera: self.camera,
            pixel_samples: self.pixel_samples,
            width: self.width,
            height: self.height,
        }
    }
}

/// Why a scene cannot be flattened.
#[derive(Clone, Copy, Debug, PartialEq, Eq, Structural)]
pub enum FlattenError {
    /// GPU backends require affine object transforms (bottom row [0,0,0,1]).
    NotAffine,
    /// An object references a missing material.
    MissingMaterial,
}

/// A billionth.
pub const TINY: u64 = 0x3e11_2e0b_e826_d695;

/// The doubles that lie no farther than a billionth from one are those in between.
pub const JUST_BELOW_ONE: u64 = 0x3fef_ffff_ff76_8fa1;

pub const JUST_ABOVE_ONE: u64 = 0x3ff0_0000_0044_b82f;

/// Whether the bottom row of a matrix is [0,0,0,1], to within a billionth.
pub open spec fn is_affine(m: Seq<u64>) -> bool {
    &&& !double::below(TINY, double::magnitude(m[12]))
    &&& !double::below(TINY, double::magnitude(m[13]))
    &&& !double::below(TINY, double::magnitude(m[14]))
    &&& !double::below(JUST_ABOVE_ONE, m[15])
    &&& !double::below(m[15], JUST_BELOW_ONE)
}

/// The nearest singles.
pub open spec fn narrowed_all(v: Seq<u64>) -> Seq<u32> {
    v.map_values(|b: u64| double::narrowed(b))
}

/// The nearest singles of a vector.
pub open spec fn narrowed3(v: Vec3) -> Single3 {
    Single3 { x: double::narrowed(v.x), y: double::narrowed(v.y), z: double::narrowed(v.z) }
}

/// The nearest singles of a vector.
pub fn narrow3(v: Vec3) -> (r: Single3)
    ensures
        r == narrowed3(v),
{
    Single3 { x: double::narrow(v.x), y: double::narrow(v.y), z: double::narrow(v.z) }
}

/// An affine matrix in single precision.
pub fn matrix_to_f32(m: &[u64; 16]) -> (r: Result<Vec<u32>, FlattenError>)
    ensures
        r matches Ok(v) ==> is_affine(m@) && v@ == narrowed_all(m@),
        r matches Err(e) ==> !is_affine(m@) && e == FlattenError::NotAffine,
{
    let half: u64 = 0x8000_0000_0000_0000;
    if double::less(TINY, m[12] % half) || double::less(TINY, m[13] % half) || double::less(
        TINY,
        m[14] % half,
    ) || double::less(JUST_ABOVE_ONE, m[15]) || double::less(m[15], JUST_BELOW_ONE) {
        return Err(FlattenError::NotAffine);
    }
    let mut out: Vec<u32> = Vec::new();
    let mut i: usize = 0;
    while i < 16
        invariant
            i <= 16,
            out@ == narrowed_all(m@.take(i as int)),
        decreases 16 - i,
    {
        out.push(double::narrow(m[i]));
        i += 1;
        assert(out@ =~= narrowed_all(m@.take(i as int)));
    }
    assert(m@.take(16) =~= m@);
    Ok(out)
}

pub open spec fn flat_object(o: ObjectValues) -> FlatObjectView {
    FlatObjectView {
        kind: o.kind,
        inv: narrowed_all(o.inverse@),
        fwd: narrowed_all(o.transform@),
    }
}

pub open spec fn flat_material(m: MaterialValues) -> FlatMaterial {
    FlatMaterial {
        color: narrowed3(m.color),
        ka: double::narrowed(m.ka),
        kd: double::narrowed(m.kd),
        ks: double::narrowed(m.ks),
        shininess: double::narrowed(m.shininess),
        reflectivity: double::narrowed(m.reflectivity),
        is_metal: m.is_metal,
    }
}

pub open spec fn flat_light(l: LightValues) -> FlatLight {
    FlatLight {
        kind: match l.place {
            LightPlace::Point { position } => FlatLightKind::Point {
                position: narrowed3(position),
            },
            LightPlace::Distant { direction } => FlatLightKind::Distant {
                direction: narrowed3(direction),
            },
        },
        intensity: double::narrowed(l.intensity),
        color: narrowed3(l.color),
    }
}

/// Half the height of the image plane at distance one.
pub open spec fn half_height_of<F: Fn(Op, u64, u64) -> u64>(f: F, c: CameraValues) -> u64 {
    arith::value(
        f,
        Op::Tangent,
        arith::quotient(f, arith::value(f, Op::Radians, c.fov, ZERO), TWO),
        ZERO,
    )
}

/// Half its width: its pixels are square.
pub open spec fn half_width_of<F: Fn(Op, u64, u64) -> u64>(f: F, c: CameraValues) -> u64 {
    arith::product(
        f,
        arith::quotient(
            f,
            double::dyadic(c.width as int, 0),
            double::dyadic(c.height as int, 0),
        ),
        half_height_of(f, c),
    )
}

impl CameraValues {
    /// Half the width and half the height of the image plane at distance one.
    pub fn half_sizes<F: Fn(Op, u64, u64) -> u64>(&self, f: &F) -> (r: (u64, u64))
        requires
            computes(*f),
        ensures
            r == (half_width_of(*f, *self), half_height_of(*f, *self)),
    {
        let angle: u64 = compute(f, Op::Radians, self.fov, ZERO);
        let half_height: u64 = compute(f, Op::Tangent, over(f, angle, TWO), ZERO);
        let aspect_ratio: u64 = over(
            f,
            double::dyadic_double(self.width as i64, 0),
            double::dyadic_double(self.height as i64, 0),
        );
        (times(f, aspect_ratio, half_height), half_height)
    }
}

pub open spec fn flat_camera<F: Fn(Op, u64, u64) -> u64>(f: F, c: CameraValues) -> FlatCamera {
    FlatCamera {
        eye: narrowed3(c.eye),
        forward: narrowed3(c.forward),
        right: narrowed3(c.right),
        up: narrowed3(c.up),
        half_width: double::narrowed(half_width_of(f, c)),
        half_height: double::narrowed(half_height_of(f, c)),
    }
}

/// What keeps an object from being flattened.
pub open spec fn object_fault(o: ObjectValues, materials: int) -> Option<FlattenError> {
    if !is_affine(o.inverse@) || !is_affine(o.transform@) {
        Some(FlattenError::NotAffine)
    } else if o.material_id >= materials {
        Some(FlattenError::MissingMaterial)
    } else {
        None
    }
}

/// The fault of the first object that has one.
pub open spec fn first_fault(objects: Seq<ObjectValues>, materials: int) -> Option<FlattenError>
    decreases objects.len(),
{
    if objects.len() == 0 {
        None
    } else if first_fault(objects.drop_last(), materials) is Some {
        first_fault(objects.drop_last(), materials)
    } else {
        object_fault(objects.last(), materials)
    }
}

/// A flattened scene.
pub open spec fn flattened<F: Fn(Op, u64, u64) -> u64>(f: F, s: SceneValues) -> FlatSceneView {
    FlatSceneView {
        objects: s.objects@.map_values(|o: ObjectValues| flat_object(o)),
        materials: s.objects@.map_values(
            |o: ObjectValues| flat_material(s.materials@[o.material_id as int]),
        ),
        lights: s.lights@.map_values(|l: LightValues| flat_light(l)),
        background: narrowed3(s.background),
        camera: flat_camera(f, s.camera),
        pixel_samples: s.pixel_samples,
        width: s.camera.width,
        height: s.camera.height,
    }
}

proof fn fault_stays(objects: Seq<ObjectValues>, materials: int, n: int)
    requires
        0 <= n <= objects.len(),
        first_fault(objects.take(n), materials) is Some,
    ensures
        first_fault(objects, materials) == first_fault(objects.take(n), materials),
    decreases objects.len() - n,
{
    if n == objects.len() {
        assert(objects.take(n) =~= objects);
    } else {
        assert(objects.take(n + 1).drop_last() =~= objects.take(n));
        fault_stays(objects, materials, n + 1);
    }
}

fn flatten_material(m: &MaterialValues) -> (r: FlatMaterial)
    ensures
        r == flat_material(*m),
{
    FlatMaterial {
        color: narrow3(m.color),
        ka: double::narrow(m.ka),
        kd: double::narrow(m.kd),
        ks: double::narrow(m.ks),
        shininess: double::narrow(m.shininess),
        reflectivity: double::narrow(m.reflectivity),
        is_metal: m.is_metal,
    }
}

fn flatten_light(l: &LightValues) -> (r: FlatLight)
    ensures
        r == flat_light(*l),
{
    let kind: FlatLightKind = match l.place {
        LightPlace::Point { position } => FlatLightKind::Point { position: narrow3(position) },
        LightPlace::Distant { direction } => FlatLightKind::Distant {
            direction: narrow3(direction),
        },
    };
    FlatLight { kind, intensity: double::narrow(l.intensity), color: narrow3(l.color) }
}

impl FlatScene {
    /// Flatten a scene; the first object that cannot be flattened decides the error.
    pub fn from_scene<F: Fn(Op, u64, u64) -> u64>(scene: &SceneValues, f: &F) -> (r: Result<
        FlatScene,
        FlattenError,
    >)
        requires
            computes(*f),
        ensures
            match first_fault(scene.objects@, scene.materials@.len() as int) {
                Some(e) => r == Err::<FlatScene, FlattenError>(e),
                None => r matches Ok(flat) && flat@ == flattened(*f, *scene),
            },
    {
        let ghost all = flattened(*f, *scene);
        let ghost count = scene.materials@.len() as int;
        let n: usize = scene.objects.len();
        let mut objects: Vec<FlatObject> = Vec::new();
        let mut materials: Vec<FlatMaterial> = Vec::new();
        let mut i: usize = 0;
        proof {
            assert(scene.objects@.take(0) =~= seq![]);
            assert(flat_object_views(objects@) =~= all.objects.take(0));
            assert(materials@ =~= all.materials.take(0));
        }
        while i < n
            invariant
                i <= n == scene.objects@.len(),
                all == flattened(*f, *scene),
                count == scene.materials@.len(),
                first_fault(scene.objects@.take(i as int), count) is None,
                flat_object_views(objects@) == all.objects.take(i as int),
                materials@ == all.materials.take(i as int),
            decreases n - i,
        {
            let o: &ObjectValues = &scene.objects[i];
            proof {
                assert(scene.objects@.take(i + 1).drop_last() =~= scene.objects@.take(i as int));
                if first_fault(scene.objects@.take(i + 1), count) is Some {
                    fault_stays(scene.objects@, count, i + 1);
                }
            }
            let inv: Vec<u32> = match matrix_to_f32(&o.inverse) {
                Ok(m) => m,
                Err(e) => {
                    return Err(e);
                },
            };
            let fwd: Vec<u32> = match matrix_to_f32(&o.transform) {
                Ok(m) => m,
                Err(e) => {
                    return Err(e);
                },
            };
            if o.material_id >= scene.materials.len() {
                return Err(FlattenError::MissingMaterial);
            }
            let flat: FlatObject = FlatObject { kind: o.kind, inv, fwd };
            let material: FlatMaterial = flatten_material(&scene.materials[o.material_id]);
            proof {
                assert(flat@ == all.objects[i as int]);
                assert(material == all.materials[i as int]);
                assert(flat_object_views(objects@.push(flat)) =~= flat_object_views(
                    objects@,
                ).push(flat@));
                assert(all.objects.take(i + 1) =~= all.objects.take(i as int).push(flat@));
                assert(all.materials.take(i + 1) =~= all.materials.take(i as int).push(material));
            }
            objects.push(flat);
            materials.push(material);
            i += 1;
        }
        let m: usize = scene.lights.len();
        let mut lights: Vec<FlatLight> = Vec::new();
        let mut j: usize = 0;
        assert(lights@ =~= all.lights.take(0));
        while j < m
            invariant
                j <= m == scene.lights@.len(),
                all == flattened(*f, *scene),
                lights@ == all.lights.take(j as int),
            decreases m - j,
        {
            lights.push(flatten_light(&scene.lights[j]));
            j += 1;
            assert(lights@ =~= all.lights.take(j as int));
        }
        proof {
            assert(scene.objects@.take(n as int) =~= scene.objects@);
            assert(all.objects.take(n as int) =~= all.objects);
            assert(all.materials.take(n as int) =~= all.materials);
            assert(all.lights.take(m as int) =~= all.lights);
        }
        let c: CameraValues = scene.camera;
        let (half_width, half_height): (u64, u64) = c.half_sizes(f);
        Ok(
            FlatScene {
                objects,
                materials,
                lights,
                background: narrow3(scene.background),
                camera: FlatCamera {
                    eye: narrow3(c.eye),
                    forward: narrow3(c.forward),
                    right: narrow3(c.right),
                    up: narrow3(c.up),
                    half_width: double::narrow(half_width),
                    half_height: double::narrow(half_height),
                },
                pixel_samples: scene.pixel_samples,
                width: c.width,
                height: c.height,
            },
        )
    }
}

} // verus!
