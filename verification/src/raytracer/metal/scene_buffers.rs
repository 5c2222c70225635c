//! Mirrors of the kernel's structs.
//!
//! Layout rule: 32-bit fields and fixed arrays of them only, in the order of the
//! fields, without padding. A structure is laid out as its words; a buffer is the
//! bytes of its words, low byte first.

use crate::double;
use crate::geometry::mesh::Single3;
use crate::math::Vec3;
use crate::parser::scene::PrimitiveKind;
use crate::raytracer::flatten;
use crate::raytracer::flatten::{
    FlatLight, FlatLightKind, FlatMaterial, FlatObject, FlatObjectView, FlatScene, FlatSceneView,
};
use vstd::prelude::*;

verus! {

/// How often a ray is followed on.
pub const MAX_DEPTH: u32 = 5;

/// A primitive: its kind, its parameters and its transforms.
#[derive(Debug)]
pub struct GpuObject {
    /// 0 sphere, 1 cylinder, 2 cone, 3 torus, 4 disk, 5 paraboloid, 6 hyperboloid,
    /// 7 triangle.
    pub kind: u32,
    /// Nine parameters; those that the kind does not have are zero.
    pub params: Vec<u32>,
    pub inv: Vec<u32>,
    pub fwd: Vec<u32>,
}

/// What a primitive is.
pub struct GpuObjectView {
    pub kind: u32,
    pub params: Seq<u32>,
    pub inv: Seq<u32>,
    pub fwd: Seq<u32>,
}

impl View for GpuObject {
    type V = GpuObjectView;

    open spec fn view(&self) -> GpuObjectView {
        GpuObjectView { kind: self.kind, params: self.params@, inv: self.inv@, fwd: self.fwd@ }
    }
}

pub open spec fn gpu_object_views(v: Seq<GpuObject>) -> Seq<GpuObjectView> {
    v.map_values(|o: GpuObject| o@)
}

/// The number of a kind of primitive.
pub open spec fn kind_number(k: PrimitiveKind) -> u32 {
    match k {
        PrimitiveKind::Sphere { .. } => 0,
        PrimitiveKind::Cylinder { .. } => 1,
        PrimitiveKind::Cone { .. } => 2,
        PrimitiveKind::Torus { .. } => 3,
        PrimitiveKind::Disk { .. } => 4,
        PrimitiveKind::Paraboloid { .. } => 5,
        PrimitiveKind::Hyperboloid { .. } => 6,
        PrimitiveKind::Triangle { .. } => 7,
    }
}

/// The parameters of a primitive, in the order of the kernel.
pub open spec fn kind_values(k: PrimitiveKind) -> Seq<u64> {
    match k {
        PrimitiveKind::Sphere { radius, zmin, zmax, thetamax } => seq![
            radius,
            zmin,
            zmax,
            thetamax,
        ],
        PrimitiveKind::Cylinder { radius, zmin, zmax, thetamax } => seq![
            radius,
            zmin,
            zmax,
            thetamax,
        ],
        PrimitiveKind::Cone { height, radius, thetamax } => seq![height, radius, thetamax],
        PrimitiveKind::Torus { major_radius, minor_radius, phimin, phimax, thetamax } => seq![
            major_radius,
            minor_radius,
            phimin,
            phimax,
            thetamax,
        ],
        PrimitiveKind::Disk { height, radius, thetamax } => seq![height, radius, thetamax],
        PrimitiveKind::Paraboloid { rmax, zmin, zmax, thetamax } => seq![
            rmax,
            zmin,
            zmax,
            thetamax,
        ],
        PrimitiveKind::Hyperboloid { p1, p2, thetamax } => seq![
            p1.x,
            p1.y,
            p1.z,
            p2.x,
            p2.y,
            p2.z,
            thetamax,
        ],
        PrimitiveKind::Triangle { v0, v1, v2 } => seq![
            v0.x,
            v0.y,
            v0.z,
            v1.x,
            v1.y,
            v1.z,
            v2.x,
            v2.y,
            v2.z,
        ],
    }
}

/// Nine singles: the parameters, then zeros.
pub open spec fn kind_params(k: PrimitiveKind) -> Seq<u32> {
    let v = kind_values(k);
    Seq::new(9, |i: int| if i < v.len() { double::narrowed(v[i]) } else { 0 })
}

/// A primitive as the kernel reads it.
pub open spec fn packed_object(o: FlatObjectView) -> GpuObjectView {
    GpuObjectView {
        kind: kind_number(o.kind),
        params: kind_params(o.kind),
        inv: o.inv,
        fwd: o.fwd,
    }
}

fn list_values(k: &PrimitiveKind) -> (r: Vec<u64>)
    ensures
        r@ == kind_values(*k),
{
    let v: Vec<u64> = match *k {
        PrimitiveKind::Sphere { radius, zmin, zmax, thetamax } => vec![
            radius,
            zmin,
            zmax,
            thetamax,
        ],
        PrimitiveKind::Cylinder { radius, zmin, zmax, thetamax } => vec![
            radius,
            zmin,
            zmax,
            thetamax,
        ],
        PrimitiveKind::Cone { height, radius, thetamax } => vec![height, radius, thetamax],
        PrimitiveKind::Torus { major_radius, minor_radius, phimin, phimax, thetamax } => vec![
            major_radius,
            minor_radius,
            phimin,
            phimax,
            thetamax,
        ],
        PrimitiveKind::Disk { height, radius, thetamax } => vec![height, radius, thetamax],
        PrimitiveKind::Paraboloid { rmax, zmin, zmax, thetamax } => vec![
            rmax,
            zmin,
            zmax,
            thetamax,
        ],
        PrimitiveKind::Hyperboloid { p1, p2, thetamax } => vec![
            p1.x,
            p1.y,
            p1.z,
            p2.x,
            p2.y,
            p2.z,
            thetamax,
        ],
        PrimitiveKind::Triangle { v0, v1, v2 } => vec![
            v0.x,
            v0.y,
            v0.z,
            v1.x,
            v1.y,
            v1.z,
            v2.x,
            v2.y,
            v2.z,
        ],
    };
    assert(v@ =~= kind_values(*k));
    v
}

fn number_of(k: &PrimitiveKind) -> (r: u32)
    ensures
        r == kind_number(*k),
{
    match *k {
        PrimitiveKind::Sphere { .. } => 0,
        PrimitiveKind::Cylinder { .. } => 1,
        PrimitiveKind::Cone { .. } => 2,
        PrimitiveKind::Torus { .. } => 3,
        PrimitiveKind::Disk { .. } => 4,
        PrimitiveKind::Paraboloid { .. } => 5,
        PrimitiveKind::Hyperboloid { .. } => 6,
        PrimitiveKind::Triangle { .. } => 7,
    }
}

/// A copy of words.
pub fn copy_words(v: &Vec<u32>) -> (r: Vec<u32>)
    ensures
        r@ == v@,
{
    let n: usize = v.len();
    let mut out: Vec<u32> = Vec::new();
    let mut i: usize = 0;
    while i < n
        invariant
            i <= n == v@.len(),
            out@ == v@.take(i as int),
        decreases n - i,
    {
        out.push(v[i]);
        i += 1;
        assert(out@ =~= v@.take(i as int));
    }
    assert(v@.take(n as int) =~= v@);
    out
}

/// A primitive as the kernel reads it.
pub fn gpu_object(o: &FlatObject) -> (r: GpuObject)
    ensures
        r@ == packed_object(o@),
{
    let values: Vec<u64> = list_values(&o.kind);
    let mut params: Vec<u32> = Vec::new();
    let mut i: usize = 0;
    while i < 9
        invariant
            i <= 9,
            values@ == kind_values(o.kind),
            params@ == kind_params(o.kind).take(i as int),
        decreases 9 - i,
    {
        if i < values.len() {
            params.push(double::narrow(values[i]));
        } else {
            params.push(0);
        }
        i += 1;
        assert(params@ =~= kind_params(o.kind).take(i as int));
    }
    assert(kind_params(o.kind).take(9) =~= kind_params(o.kind));
    GpuObject {
        kind: number_of(&o.kind),
        params,
        inv: copy_words(&o.inv),
        fwd: copy_words(&o.fwd),
    }
}

/// A material as the kernel reads it.
#[derive(Clone, Copy, Debug, PartialEq, Eq, Structural)]
pub struct GpuMaterial {
    pub r: u32,
    pub g: u32,
    pub b: u32,
    pub ka: u32,
    pub kd: u32,
    pub ks: u32,
    pub shininess: u32,
    pub reflectivity: u32,
    pub is_metal: u32,
}

/// A light as the kernel reads it.
#[derive(Clone, Copy, Debug, PartialEq, Eq, Structural)]
pub struct GpuLight {
    /// 0 point (x, y, z is its position), 1 distant (x, y, z is its direction).
    pub kind: u32,
    pub x: u32,
    pub y: u32,
    pub z: u32,
    pub intensity: u32,
    pub r: u32,
    pub g: u32,
    pub b: u32,
}

/// What holds for a whole dispatch.
#[derive(Clone, Copy, Debug, PartialEq, Eq, Structural)]
pub struct GpuUniforms {
    pub width: u32,
    pub height: u32,
    pub samples_x: u32,
    pub samples_y: u32,
    pub object_count: u32,
    pub light_count: u32,
    pub max_depth: u32,
    /// First image row of this dispatch band.
    pub y_offset: u32,
    pub background: Single3,
    pub eye: Single3,
    pub forward: Single3,
    pub right: Single3,
    pub up: Single3,
    pub half_width: u32,
    pub half_height: u32,
}

/// The buffers of a scene.
#[derive(Debug)]
pub struct SceneBuffers {
    pub objects: Vec<GpuObject>,
    pub materials: Vec<GpuMaterial>,
    pub lights: Vec<GpuLight>,
    pub uniforms: GpuUniforms,
}

/// What the buffers of a scene are.
pub struct SceneBuffersView {
    pub objects: Seq<GpuObjectView>,
    pub materials: Seq<GpuMaterial>,
    pub lights: Seq<GpuLight>,
    pub uniforms: GpuUniforms,
}

impl View for SceneBuffers {
    type V = SceneBuffersView;

    open spec fn view(&self) -> SceneBuffersView {
        SceneBuffersView {
            objects: gpu_object_views(self.objects@),
            materials: self.materials@,
            lights: self.lights@,
            uniforms: self.uniforms,
        }
    }
}

pub open spec fn packed_material(m: FlatMaterial) -> GpuMaterial {
    GpuMaterial {
        r: m.color.x,
        g: m.color.y,
        b: m.color.z,
        ka: m.ka,
        kd: m.kd,
        ks: m.ks,
        shininess: m.shininess,
        reflectivity: m.reflectivity,
        is_metal: if m.is_metal {
            1
        } else {
            0
        },
    }
}

pub open spec fn packed_light(l: FlatLight) -> GpuLight {
    let (kind, v) = match l.kind {
        FlatLightKind::Point { position } => (0u32, position),
        FlatLightKind::Distant { direction } => (1u32, direction),
    };
    GpuLight {
        kind,
        x: v.x,
        y: v.y,
        z: v.z,
        intensity: l.intensity,
        r: l.color.x,
        g: l.color.y,
        b: l.color.z,
    }
}

/// `n` zeros.
pub open spec fn zeros(n: nat) -> Seq<u32> {
    Seq::new(n, |i: int| 0u32)
}

/// An object of zeros.
pub open spec fn blank_object() -> GpuObjectView {
    GpuObjectView { kind: 0, params: zeros(9), inv: zeros(16), fwd: zeros(16) }
}

pub open spec fn blank_material() -> GpuMaterial {
    GpuMaterial {
        r: 0,
        g: 0,
        b: 0,
        ka: 0,
        kd: 0,
        ks: 0,
        shininess: 0,
        reflectivity: 0,
        is_metal: 0,
    }
}

pub open spec fn blank_light() -> GpuLight {
    GpuLight { kind: 0, x: 0, y: 0, z: 0, intensity: 0, r: 0, g: 0, b: 0 }
}

/// The list itself, or one blank where it is empty: a buffer must not be empty, and the
/// counts in the uniforms keep the kernel from reading a blank.
pub open spec fn or_blank<T>(v: Seq<T>, blank: T) -> Seq<T> {
    if v.len() == 0 {
        seq![blank]
    } else {
        v
    }
}

pub open spec fn at_least_one(n: u32) -> u32 {
    if n == 0 {
        1
    } else {
        n
    }
}

/// The buffers of a flattened scene.
pub open spec fn packed_scene(s: FlatSceneView) -> SceneBuffersView {
    SceneBuffersView {
        objects: or_blank(s.objects.map_values(|o: FlatObjectView| packed_object(o)), blank_object()),
        materials: or_blank(
            s.materials.map_values(|m: FlatMaterial| packed_material(m)),
            blank_material(),
        ),
        lights: or_blank(s.lights.map_values(|l: FlatLight| packed_light(l)), blank_light()),
        uniforms: GpuUniforms {
            width: s.width,
            height: s.height,
            samples_x: at_least_one(s.pixel_samples.0),
            samples_y: at_least_one(s.pixel_samples.1),
            object_count: s.objects.len() as u32,
            light_count: s.lights.len() as u32,
            max_depth: MAX_DEPTH,
            y_offset: 0,
            background: s.background,
            eye: s.camera.eye,
            forward: s.camera.forward,
            right: s.camera.right,
            up: s.camera.up,
            half_width: s.camera.half_width,
            half_height: s.camera.half_height,
        },
    }
}

fn pack_material(m: &FlatMaterial) -> (r: GpuMaterial)
    ensures
        r == packed_material(*m),
{
    GpuMaterial {
        r: m.color.x,
        g: m.color.y,
        b: m.color.z,
        ka: m.ka,
        kd: m.kd,
        ks: m.ks,
        shininess: m.shininess,
        reflectivity: m.reflectivity,
        is_metal: if m.is_metal {
            1
        } else {
            0
        },
    }
}

fn pack_light(l: &FlatLight) -> (r: GpuLight)
    ensures
        r == packed_light(*l),
{
    let (kind, v): (u32, Single3) = match l.kind {
        FlatLightKind::Point { position } => (0, position),
        FlatLightKind::Distant { direction } => (1, direction),
    };
    GpuLight {
        kind,
        x: v.x,
        y: v.y,
        z: v.z,
        intensity: l.intensity,
        r: l.color.x,
        g: l.color.y,
        b: l.color.z,
    }
}

/// `n` zeros.
pub fn zero_words(n: usize) -> (r: Vec<u32>)
    ensures
        r@ == zeros(n as nat),
{
    let mut out: Vec<u32> = Vec::new();
    let mut i: usize = 0;
    while i < n
        invariant
            i <= n,
            out@ == zeros(i as nat),
        decreases n - i,
    {
        out.push(0);
        i += 1;
        assert(out@ =~= zeros(i as nat));
    }
    out
}

/// An object of zeros.
pub fn zero_object() -> (r: GpuObject)
    ensures
        r@ == blank_object(),
{
    GpuObject { kind: 0, params: zero_words(9), inv: zero_words(16), fwd: zero_words(16) }
}

impl SceneBuffers {
    /// The buffers of a flattened scene.
    pub fn build(flat: &FlatScene) -> (r: SceneBuffers)
        requires
            flat@.objects.len() <= u32::MAX,
            flat@.lights.len() <= u32::MAX,
        ensures
            r@ == packed_scene(flat@),
    {
        let ghost s = flat@;
        let ghost all_objects = s.objects.map_values(|o: FlatObjectView| packed_object(o));
        let ghost all_materials = s.materials.map_values(|m: FlatMaterial| packed_material(m));
        let ghost all_lights = s.lights.map_values(|l: FlatLight| packed_light(l));
        let n: usize = flat.objects.len();
        let mut objects: Vec<GpuObject> = Vec::new();
        let mut i: usize = 0;
        assert(gpu_object_views(objects@) =~= all_objects.take(0));
        while i < n
            invariant
                i <= n == flat.objects@.len(),
                s == flat@,
                all_objects == s.objects.map_values(|o: FlatObjectView| packed_object(o)),
                gpu_object_views(objects@) == all_objects.take(i as int),
            decreases n - i,
        {
            let o: GpuObject = gpu_object(&flat.objects[i]);
            proof {
                assert(s.objects[i as int] == flat.objects@[i as int]@);
                assert(all_objects[i as int] == o@);
                assert(gpu_object_views(objects@.push(o)) =~= gpu_object_views(objects@).push(o@));
                assert(all_objects.take(i + 1) =~= all_objects.take(i as int).push(o@));
            }
            objects.push(o);
            i += 1;
        }
        assert(all_objects.take(n as int) =~= all_objects);
        let m: usize = flat.materials.len();
        let mut materials: Vec<GpuMaterial> = Vec::new();
        let mut j: usize = 0;
        assert(materials@ =~= all_materials.take(0));
        while j < m
            invariant
                j <= m == flat.materials@.len(),
                s == flat@,
                all_materials == s.materials.map_values(|m: FlatMaterial| packed_material(m)),
                materials@ == all_materials.take(j as int),
            decreases m - j,
        {
            materials.push(pack_material(&flat.materials[j]));
            j += 1;
            assert(materials@ =~= all_materials.take(j as int));
        }
        assert(all_materials.take(m as int) =~= all_materials);
        let l: usize = flat.lights.len();
        let mut lights: Vec<GpuLight> = Vec::new();
        let mut k: usize = 0;
        assert(lights@ =~= all_lights.take(0));
        while k < l
            invariant
                k <= l == flat.lights@.len(),
                s == flat@,
                all_lights == s.lights.map_values(|l: FlatLight| packed_light(l)),
                lights@ == all_lights.take(k as int),
            decreases l - k,
        {
            lights.push(pack_light(&flat.lights[k]));
            k += 1;
            assert(lights@ =~= all_lights.take(k as int));
        }
        assert(all_lights.take(l as int) =~= all_lights);
        if objects.len() == 0 {
            objects.push(zero_object());
            assert(gpu_object_views(objects@) =~= seq![blank_object()]);
        }
        if materials.len() == 0 {
            materials.push(
                GpuMaterial {
                    r: 0,
                    g: 0,
                    b: 0,
                    ka: 0,
                    kd: 0,
                    ks: 0,
                    shininess: 0,
                    reflectivity: 0,
                    is_metal: 0,
                },
            );
            assert(materials@ =~= seq![blank_material()]);
        }
        if lights.len() == 0 {
            lights.push(GpuLight { kind: 0, x: 0, y: 0, z: 0, intensity: 0, r: 0, g: 0, b: 0 });
            assert(lights@ =~= seq![blank_light()]);
        }
        let samples: (u32, u32) = flat.pixel_samples;
        SceneBuffers {
            objects,
            materials,
            lights,
            uniforms: GpuUniforms {
                width: flat.width,
                height: flat.height,
                samples_x: if samples.0 == 0 {
                    1
                } else {
                    samples.0
                },
                samples_y: if samples.1 == 0 {
                    1
                } else {
                    samples.1
                },
                object_count: n as u32,
                light_count: l as u32,
                max_depth: MAX_DEPTH,
                y_offset: 0,
                background: flat.background,
                eye: flat.camera.eye,
                forward: flat.camera.forward,
                right: flat.camera.right,
                up: flat.camera.up,
                half_width: flat.camera.half_width,
                half_height: flat.camera.half_height,
            },
        }
    }
}

// ---- words and bytes -------------------------------------------------------

/// The words of an object.
pub open spec fn object_words(o: GpuObjectView) -> Seq<u32> {
    seq![o.kind] + o.params + o.inv + o.fwd
}

pub open spec fn material_words(m: GpuMaterial) -> Seq<u32> {
    seq![m.r, m.g, m.b, m.ka, m.kd, m.ks, m.shininess, m.reflectivity, m.is_metal]
}

pub open spec fn light_words(l: GpuLight) -> Seq<u32> {
    seq![l.kind, l.x, l.y, l.z, l.intensity, l.r, l.g, l.b]
}

/// The words of each element in turn.
pub open spec fn words_of<T>(v: Seq<T>, words: spec_fn(T) -> Seq<u32>) -> Seq<u32>
    decreases v.len(),
{
    if v.len() == 0 {
        seq![]
    } else {
        words_of(v.drop_last(), words) + words(v.last())
    }
}

/// The bytes of a word, low byte first.
pub open spec fn word_bytes(w: u32) -> Seq<u8> {
    seq![
        (w % 256) as u8,
        (w / 256 % 256) as u8,
        (w / 65536 % 256) as u8,
        (w / 16777216) as u8,
    ]
}

/// The bytes of words.
pub open spec fn bytes_of(words: Seq<u32>) -> Seq<u8>
    decreases words.len(),
{
    if words.len() == 0 {
        seq![]
    } else {
        bytes_of(words.drop_last()) + word_bytes(words.last())
    }
}

/// The bytes of words, low byte first.
pub fn as_bytes(words: &Vec<u32>) -> (r: Vec<u8>)
    ensures
        r@ == bytes_of(words@),
{
    let n: usize = words.len();
    let mut out: Vec<u8> = Vec::new();
    let mut i: usize = 0;
    assert(words@.take(0) =~= seq![]);
    while i < n
        invariant
            i <= n == words@.len(),
            out@ == bytes_of(words@.take(i as int)),
        decreases n - i,
    {
        let w: u32 = words[i];
        let ghost before = out@;
        out.push((w % 256) as u8);
        out.push((w / 256 % 256) as u8);
        out.push((w / 65536 % 256) as u8);
        out.push((w / 16777216) as u8);
        proof {
            assert(words@.take(i + 1).drop_last() =~= words@.take(i as int));
            assert(out@ =~= before + word_bytes(w));
        }
        i += 1;
    }
    assert(words@.take(n as int) =~= words@);
    out
}

/// Appends words.
pub fn push_words(out: &mut Vec<u32>, words: &Vec<u32>)
    ensures
        final(out)@ == old(out)@ + words@,
{
    let n: usize = words.len();
    let mut i: usize = 0;
    let ghost before = out@;
    assert(before + words@.take(0) =~= before);
    while i < n
        invariant
            i <= n == words@.len(),
            out@ == before + words@.take(i as int),
        decreases n - i,
    {
        out.push(words[i]);
        i += 1;
        assert(out@ =~= before + words@.take(i as int));
    }
    assert(words@.take(n as int) =~= words@);
}

/// The words of objects.
pub fn list_object_words(objects: &Vec<GpuObject>) -> (r: Vec<u32>)
    ensures
        r@ == words_of(gpu_object_views(objects@), |o: GpuObjectView| object_words(o)),
{
    let ghost f = |o: GpuObjectView| object_words(o);
    let ghost all = gpu_object_views(objects@);
    let n: usize = objects.len();
    let mut out: Vec<u32> = Vec::new();
    let mut i: usize = 0;
    assert(all.take(0) =~= seq![]);
    while i < n
        invariant
            i <= n == objects@.len(),
            all == gpu_object_views(objects@),
            f == (|o: GpuObjectView| object_words(o)),
            out@ == words_of(all.take(i as int), f),
        decreases n - i,
    {
        let o: &GpuObject = &objects[i];
        let ghost before = out@;
        out.push(o.kind);
        push_words(&mut out, &o.params);
        push_words(&mut out, &o.inv);
        push_words(&mut out, &o.fwd);
        proof {
            assert(all.take(i + 1).drop_last() =~= all.take(i as int));
            assert(all[i as int] == o@);
            assert(out@ =~= before + object_words(o@));
        }
        i += 1;
    }
    assert(all.take(n as int) =~= all);
    out
}

impl SceneBuffers {
    /// The bytes of the object buffer.
    pub fn objects_bytes(&self) -> (r: Vec<u8>)
        ensures
            r@ == bytes_of(words_of(self@.objects, |o: GpuObjectView| object_words(o))),
    {
        let words: Vec<u32> = list_object_words(&self.objects);
        as_bytes(&words)
    }

    /// The bytes of the material buffer.
    pub fn materials_bytes(&self) -> (r: Vec<u8>)
        ensures
            r@ == bytes_of(words_of(self@.materials, |m: GpuMaterial| material_words(m))),
    {
        let ghost f = |m: GpuMaterial| material_words(m);
        let n: usize = self.materials.len();
        let mut out: Vec<u32> = Vec::new();
        let mut i: usize = 0;
        assert(self.materials@.take(0) =~= seq![]);
        while i < n
            invariant
                i <= n == self.materials@.len(),
                f == (|m: GpuMaterial| material_words(m)),
                out@ == words_of(self.materials@.take(i as int), f),
            decreases n - i,
        {
            let m: GpuMaterial = self.materials[i];
            let words: Vec<u32> = vec![
                m.r, m.g, m.b, m.ka, m.kd, m.ks, m.shininess, m.reflectivity, m.is_metal,
            ];
            proof {
                assert(words@ =~= material_words(m));
                assert(self.materials@.take(i + 1).drop_last() =~= self.materials@.take(i as int));
            }
            push_words(&mut out, &words);
            i += 1;
        }
        assert(self.materials@.take(n as int) =~= self.materials@);
        as_bytes(&out)
    }

    /// The bytes of the light buffer.
    pub fn lights_bytes(&self) -> (r: Vec<u8>)
        ensures
            r@ == bytes_of(words_of(self@.lights, |l: GpuLight| light_words(l))),
    {
        let ghost f = |l: GpuLight| light_words(l);
        let n: usize = self.lights.len();
        let mut out: Vec<u32> = Vec::new();
        let mut i: usize = 0;
        assert(self.lights@.take(0) =~= seq![]);
        while i < n
            invariant
                i <= n == self.lights@.len(),
                f == (|l: GpuLight| light_words(l)),
                out@ == words_of(self.lights@.take(i as int), f),
            decreases n - i,
        {
            let l: GpuLight = self.lights[i];
            let words: Vec<u32> = vec![l.kind, l.x, l.y, l.z, l.intensity, l.r, l.g, l.b];
            proof {
                assert(words@ =~= light_words(l));
                assert(self.lights@.take(i + 1).drop_last() =~= self.lights@.take(i as int));
            }
            push_words(&mut out, &words);
            i += 1;
        }
        assert(self.lights@.take(n as int) =~= self.lights@);
        as_bytes(&out)
    }
}

/// A buffer holds four bytes for each word.
pub proof fn buffer_size(words: Seq<u32>)
    ensures
        bytes_of(words).len() == 4 * words.len(),
    decreases words.len(),
{
    if words.len() > 0 {
        buffer_size(words.drop_last());
    }
}

/// An object takes up 168 bytes, a material 36, and a light 32.
pub proof fn element_sizes(o: FlatObjectView, m: GpuMaterial, l: GpuLight)
    requires
        o.inv.len() == 16,
        o.fwd.len() == 16,
    ensures
        bytes_of(object_words(packed_object(o))).len() == 168,
        bytes_of(material_words(m)).len() == 36,
        bytes_of(light_words(l)).len() == 32,
{
    buffer_size(object_words(packed_object(o)));
    buffer_size(material_words(m));
    buffer_size(light_words(l));
}

} // verus!
