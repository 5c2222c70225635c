//! GPU representation of the path-traced scene: quadrics, meshes with concatenated
//! BLAS buffers, TLAS instances, materials, and lights, laid out as the kernel's
//! structs. Triangle indices and instances are permuted into BVH leaf order, so
//! leaves address contiguous ranges without an indirection buffer.

use crate::accel::bvh;
use crate::accel::bvh::{Aabb, Bvh, BvhView, Node};
use crate::arith;
use crate::arith::{add_vectors, computes, minus, multiply_vector, times, Op};
use crate::double;
use crate::geometry::mesh;
use crate::geometry::mesh::Single3;
use crate::math::{Vec3, ONE, ZERO};
use crate::raytracer::flatten;
use crate::raytracer::flatten::{CameraValues, FlatObject, FlattenError, ObjectValues};
use crate::raytracer::metal::scene_buffers;
use crate::raytracer::metal::scene_buffers::{
    as_bytes, copy_words, gpu_object, list_object_words, push_words, zero_object, zero_words,
    GpuObject, GpuObjectView,
};
use crate::raytracer::pt::records;
use crate::raytracer::pt::records::luminance;
use vstd::prelude::*;

verus! {

pub const MAX_BOUNCES: u32 = 8;

pub const RR_START: u32 = 3;

/// Sixty, in single precision.
pub const FIREFLY_CLAMP: u32 = 0x4270_0000;

/// Least width of a microfacet lobe.
pub const LEAST_WIDTH: u64 = 0x3efa_36e2_eb1c_432d;

/// How much light a full coat takes.
pub const COAT_TAKE: u64 = 0x3fa4_7ae1_47ae_147b;

/// A node of a hierarchy.
#[derive(Clone, Copy, Debug, PartialEq, Eq, Structural)]
pub struct GpuBvhNode {
    pub min: Single3,
    /// Interior: left-child index (local to its hierarchy). Leaf: first primitive slot.
    pub left_or_first: u32,
    pub max: Single3,
    /// 0 for an interior node, else how many primitives the leaf holds.
    pub count: u32,
}

/// Where the data of a mesh stand in the concatenated buffers.
#[derive(Clone, Copy, Debug, PartialEq, Eq, Structural)]
pub struct GpuMeshInfo {
    /// Offset of this mesh's nodes within the concatenated BLAS buffer.
    pub node_offset: u32,
    /// Offset of this mesh's leaf-ordered triangle indices.
    pub index_offset: u32,
    /// Offset (in vertices) into the concatenated vertex and normal buffers.
    pub vertex_offset: u32,
    /// 1 when per-vertex normals are present.
    pub has_normals: u32,
}

/// A placed mesh.
#[derive(Debug)]
pub struct GpuInstance {
    pub inv: Vec<u32>,
    pub fwd: Vec<u32>,
    pub mesh_id: u32,
    pub material_id: u32,
}

/// What a placed mesh is.
pub struct GpuInstanceView {
    pub inv: Seq<u32>,
    pub fwd: Seq<u32>,
    pub mesh_id: u32,
    pub material_id: u32,
}

impl View for GpuInstance {
    type V = GpuInstanceView;

    open spec fn view(&self) -> GpuInstanceView {
        GpuInstanceView {
            inv: self.inv@,
            fwd: self.fwd@,
            mesh_id: self.mesh_id,
            material_id: self.material_id,
        }
    }
}

pub open spec fn instance_views(v: Seq<GpuInstance>) -> Seq<GpuInstanceView> {
    v.map_values(|i: GpuInstance| i@)
}

/// A material's lobe parameters, with those that the kernel would otherwise derive.
#[derive(Clone, Copy, Debug)]
pub struct PtMaterialValues {
    pub diffuse_gain: u64,
    pub diffuse_color: Vec3,
    pub diffuse_sigma: u64,
    pub spec_f0: Vec3,
    pub spec_f90: Vec3,
    pub spec_roughness: u64,
    pub coat_gain: u64,
    pub coat_roughness: u64,
    pub fuzz_gain: u64,
    pub fuzz_color: Vec3,
    pub glass_gain: u64,
    pub glass_ior: u64,
    pub glass_roughness: u64,
    pub refr_color: Vec3,
    pub emission: Vec3,
    /// Light that the surface gives off by itself.
    pub glow: Vec3,
    pub presence: u64,
    /// Normalized lobe-selection weights; all zero when the material reflects nothing.
    pub weights: (u64, u64, u64, u64, u64),
    pub area_light: Option<u32>,
}

/// A material as the kernel reads it.
#[derive(Clone, Copy, Debug)]
pub struct GpuPtMaterial {
    pub diffuse_gain: u32,
    pub diffuse_color: Single3,
    pub diffuse_sigma: u32,
    pub spec_f0: Single3,
    pub spec_f90: Single3,
    pub spec_alpha: u32,
    pub coat_gain: u32,
    pub coat_alpha: u32,
    pub fuzz_gain: u32,
    pub fuzz_color: Single3,
    pub glass_gain: u32,
    pub glass_ior: u32,
    pub glass_alpha: u32,
    pub refr_color: Single3,
    pub emission: Single3,
    pub presence: u32,
    pub under_scale: u32,
    pub weights: (u32, u32, u32, u32, u32),
    /// The largest number where the material belongs to no light.
    pub area_light: u32,
}

/// An environment map with its sampling tables.
#[derive(Debug)]
pub struct EnvValues {
    pub width: u32,
    pub height: u32,
    pub pixels: Vec<u32>,
    pub marginal: Vec<u32>,
    pub conditional: Vec<u32>,
    pub total: u32,
}

/// What an environment map is.
pub struct EnvView {
    pub width: u32,
    pub height: u32,
    pub pixels: Seq<u32>,
    pub marginal: Seq<u32>,
    pub conditional: Seq<u32>,
    pub total: u32,
}

impl View for EnvValues {
    type V = EnvView;

    open spec fn view(&self) -> EnvView {
        EnvView {
            width: self.width,
            height: self.height,
            pixels: self.pixels@,
            marginal: self.marginal@,
            conditional: self.conditional@,
            total: self.total,
        }
    }
}

/// The shape of a light.
#[derive(Debug)]
pub enum LightShape {
    Point { position: Vec3 },
    Distant { direction: Vec3, angular_radius: u64 },
    Rect { corner: Vec3, edge1: Vec3, edge2: Vec3, normal: Vec3, area: u64 },
    SphereArea { center: Vec3, radius: u64 },
    DiskArea { center: Vec3, e1: Vec3, e2: Vec3, normal: Vec3, area: u64 },
    Dome { env: Option<EnvValues> },
}

/// A light.
#[derive(Debug)]
pub struct PtLightValues {
    pub shape: LightShape,
    pub intensity: u64,
    pub color: Vec3,
}

/// A light as the kernel reads it.
#[derive(Clone, Copy, Debug, PartialEq, Eq, Structural)]
pub struct GpuPtLight {
    /// 0 point, 1 distant, 2 rect, 3 sphere, 4 disk, 5 dome. A distant light has its
    /// angular radius in `area`, a sphere its radius.
    pub kind: u32,
    /// Position, direction, corner or centre.
    pub a: Single3,
    pub e1: Single3,
    pub e2: Single3,
    pub normal: Single3,
    pub area: u32,
    pub radiance: Single3,
}

/// A mesh with its hierarchy.
pub struct MeshValues {
    pub positions: Vec<Single3>,
    pub indices: Vec<u32>,
    pub normals: Option<Vec<Single3>>,
    pub blas: Bvh,
}

/// A placed mesh.
#[derive(Debug)]
pub struct InstanceValues {
    pub bounds: Aabb,
    pub inverse: [u64; 16],
    pub transform: [u64; 16],
    pub mesh_id: u32,
    pub material_id: u32,
}

/// A path-traced scene by its values.
pub struct PtSceneValues {
    pub objects: Vec<ObjectValues>,
    pub materials: Vec<PtMaterialValues>,
    pub lights: Vec<PtLightValues>,
    pub meshes: Vec<MeshValues>,
    pub instances: Vec<InstanceValues>,
    pub background: Vec3,
    pub camera: CameraValues,
}

/// What holds for a whole dispatch.
#[derive(Clone, Copy, Debug, PartialEq, Eq, Structural)]
pub struct GpuPtUniforms {
    pub width: u32,
    pub height: u32,
    pub sample_start: u32,
    pub sample_count: u32,
    pub object_count: u32,
    pub instance_count: u32,
    pub light_count: u32,
    pub max_bounces: u32,
    pub rr_start: u32,
    pub y_offset: u32,
    pub firefly_clamp: u32,
    pub background: Single3,
    pub eye: Single3,
    pub forward: Single3,
    pub right: Single3,
    pub up: Single3,
    pub half_width: u32,
    pub half_height: u32,
    /// Index of the dome light, or the largest number.
    pub dome_index: u32,
    pub env_width: u32,
    pub env_height: u32,
    pub env_total: u32,
}

/// The buffers of a path-traced scene.
#[derive(Debug)]
pub struct GpuPtScene {
    pub objects: Vec<GpuObject>,
    /// Material id per object.
    pub object_materials: Vec<u32>,
    pub materials: Vec<GpuPtMaterial>,
    pub lights: Vec<GpuPtLight>,
    pub tlas_nodes: Vec<GpuBvhNode>,
    pub instances: Vec<GpuInstance>,
    pub blas_nodes: Vec<GpuBvhNode>,
    pub tri_indices: Vec<u32>,
    /// xyz triples, all meshes concatenated.
    pub vertices: Vec<u32>,
    /// Parallel to the vertices (zeros when a mesh has none).
    pub normals: Vec<u32>,
    pub mesh_infos: Vec<GpuMeshInfo>,
    pub env_pixels: Vec<u32>,
    pub env_marginal: Vec<u32>,
    pub env_conditional: Vec<u32>,
    pub uniforms: GpuPtUniforms,
}

/// What the buffers of a path-traced scene are.
pub struct GpuPtSceneView {
    pub objects: Seq<GpuObjectView>,
    pub object_materials: Seq<u32>,
    pub materials: Seq<GpuPtMaterial>,
    pub lights: Seq<GpuPtLight>,
    pub tlas_nodes: Seq<GpuBvhNode>,
    pub instances: Seq<GpuInstanceView>,
    pub blas_nodes: Seq<GpuBvhNode>,
    pub tri_indices: Seq<u32>,
    pub vertices: Seq<u32>,
    pub normals: Seq<u32>,
    pub mesh_infos: Seq<GpuMeshInfo>,
    pub env_pixels: Seq<u32>,
    pub env_marginal: Seq<u32>,
    pub env_conditional: Seq<u32>,
    pub uniforms: GpuPtUniforms,
}

impl View for GpuPtScene {
    type V = GpuPtSceneView;

    open spec fn view(&self) -> GpuPtSceneView {
        GpuPtSceneView {
            objects: scene_buffers::gpu_object_views(self.objects@),
            object_materials: self.object_materials@,
            materials: self.materials@,
            lights: self.lights@,
            tlas_nodes: self.tlas_nodes@,
            instances: instance_views(self.instances@),
            blas_nodes: self.blas_nodes@,
            tri_indices: self.tri_indices@,
            vertices: self.vertices@,
            normals: self.normals@,
            mesh_infos: self.mesh_infos@,
            env_pixels: self.env_pixels@,
            env_marginal: self.env_marginal@,
            env_conditional: self.env_conditional@,
            uniforms: self.uniforms,
        }
    }
}

// ---- what a scene becomes --------------------------------------------------

pub open spec fn zero3() -> Single3 {
    Single3 { x: 0, y: 0, z: 0 }
}

pub open spec fn packed_node(n: Node) -> GpuBvhNode {
    GpuBvhNode {
        min: flatten::narrowed3(n.bounds.min),
        left_or_first: n.first,
        max: flatten::narrowed3(n.bounds.max),
        count: n.count,
    }
}

/// The nodes of a hierarchy.
pub open spec fn packed_nodes(b: BvhView) -> Seq<GpuBvhNode> {
    b.nodes.map_values(|n: Node| packed_node(n))
}

/// Width of a microfacet lobe by the roughness of a surface.
pub open spec fn lobe_width<F: Fn(Op, u64, u64) -> u64>(f: F, roughness: u64) -> u64 {
    double::clamped(arith::product(f, roughness, roughness), LEAST_WIDTH, ONE)
}

/// How much light gets below the coat and the specular layer.
pub open spec fn light_below<F: Fn(Op, u64, u64) -> u64>(f: F, m: PtMaterialValues) -> u64 {
    let specular = records::luminance_of(f, m.spec_f0);
    let coat = arith::product(f, COAT_TAKE, m.coat_gain);
    double::clamped(
        arith::product(
            f,
            arith::difference(f, ONE, specular),
            arith::difference(f, ONE, coat),
        ),
        ZERO,
        ONE,
    )
}

pub open spec fn packed_pt_material<F: Fn(Op, u64, u64) -> u64>(f: F, m: PtMaterialValues) -> GpuPtMaterial {
    GpuPtMaterial {
        diffuse_gain: double::narrowed(m.diffuse_gain),
        diffuse_color: flatten::narrowed3(m.diffuse_color),
        diffuse_sigma: double::narrowed(m.diffuse_sigma),
        spec_f0: flatten::narrowed3(m.spec_f0),
        spec_f90: flatten::narrowed3(m.spec_f90),
        spec_alpha: double::narrowed(lobe_width(f, m.spec_roughness)),
        coat_gain: double::narrowed(m.coat_gain),
        coat_alpha: double::narrowed(lobe_width(f, m.coat_roughness)),
        fuzz_gain: double::narrowed(m.fuzz_gain),
        fuzz_color: flatten::narrowed3(m.fuzz_color),
        glass_gain: double::narrowed(m.glass_gain),
        glass_ior: double::narrowed(m.glass_ior),
        glass_alpha: double::narrowed(lobe_width(f, m.glass_roughness)),
        refr_color: flatten::narrowed3(m.refr_color),
        emission: flatten::narrowed3(arith::vector_sum(f, m.emission, m.glow)),
        presence: double::narrowed(m.presence),
        under_scale: double::narrowed(light_below(f, m)),
        weights: (
            double::narrowed(m.weights.0),
            double::narrowed(m.weights.1),
            double::narrowed(m.weights.2),
            double::narrowed(m.weights.3),
            double::narrowed(m.weights.4),
        ),
        area_light: match m.area_light {
            Some(i) => i,
            None => u32::MAX,
        },
    }
}

/// A light without shape.
pub open spec fn plain_light(kind: u32, radiance: Vec3) -> GpuPtLight {
    GpuPtLight {
        kind,
        a: zero3(),
        e1: zero3(),
        e2: zero3(),
        normal: zero3(),
        area: 0,
        radiance: flatten::narrowed3(radiance),
    }
}

pub open spec fn packed_pt_light<F: Fn(Op, u64, u64) -> u64>(f: F, l: PtLightValues) -> GpuPtLight {
    let radiance = arith::vector_multiple(f, l.color, l.intensity);
    match l.shape {
        LightShape::Point { position } => GpuPtLight {
            a: flatten::narrowed3(position),
            ..plain_light(0, radiance)
        },
        LightShape::Distant { direction, angular_radius } => GpuPtLight {
            a: flatten::narrowed3(direction),
            area: double::narrowed(angular_radius),
            ..plain_light(1, radiance)
        },
        LightShape::Rect { corner, edge1, edge2, normal, area } => GpuPtLight {
            a: flatten::narrowed3(corner),
            e1: flatten::narrowed3(edge1),
            e2: flatten::narrowed3(edge2),
            normal: flatten::narrowed3(normal),
            area: double::narrowed(area),
            ..plain_light(2, radiance)
        },
        LightShape::SphereArea { center, radius } => GpuPtLight {
            a: flatten::narrowed3(center),
            area: double::narrowed(radius),
            ..plain_light(3, radiance)
        },
        LightShape::DiskArea { center, e1, e2, normal, area } => GpuPtLight {
            a: flatten::narrowed3(center),
            e1: flatten::narrowed3(e1),
            e2: flatten::narrowed3(e2),
            normal: flatten::narrowed3(normal),
            area: double::narrowed(area),
            ..plain_light(4, radiance)
        },
        LightShape::Dome { .. } => plain_light(5, radiance),
    }
}

/// The index of the last dome light, or the largest number.
pub open spec fn last_dome(lights: Seq<PtLightValues>) -> u32
    decreases lights.len(),
{
    if lights.len() == 0 {
        u32::MAX
    } else if lights.last().shape is Dome {
        (lights.len() - 1) as u32
    } else {
        last_dome(lights.drop_last())
    }
}

/// An environment without pixels.
pub open spec fn no_env() -> EnvView {
    EnvView {
        width: 0,
        height: 0,
        pixels: seq![],
        marginal: seq![],
        conditional: seq![],
        total: 0,
    }
}

/// The environment of the last dome light that has one.
pub open spec fn last_env(lights: Seq<PtLightValues>) -> EnvView
    decreases lights.len(),
{
    if lights.len() == 0 {
        no_env()
    } else {
        match lights.last().shape {
            LightShape::Dome { env: Some(env) } => env@,
            _ => last_env(lights.drop_last()),
        }
    }
}

/// The vertex indices of the triangles in the slots of a hierarchy, in their order.
pub open spec fn leaf_triangles(order: Seq<u32>, indices: Seq<u32>) -> Seq<u32> {
    Seq::new(3 * order.len(), |k: int| indices[3 * order[k / 3] + k % 3])
}

/// The components of points in turn.
pub open spec fn components(points: Seq<Single3>) -> Seq<u32> {
    Seq::new(
        3 * points.len(),
        |k: int|
            if k % 3 == 0 {
                points[k / 3].x
            } else if k % 3 == 1 {
                points[k / 3].y
            } else {
                points[k / 3].z
            },
    )
}

/// The normals of a mesh, or zeros where it has none.
pub open spec fn mesh_normals(m: MeshValues) -> Seq<u32> {
    match m.normals {
        Some(n) => components(n@),
        None => scene_buffers::zeros(3 * m.positions@.len()),
    }
}

/// The concatenated buffers of meshes.
pub struct MeshBuffersView {
    pub nodes: Seq<GpuBvhNode>,
    pub indices: Seq<u32>,
    pub vertices: Seq<u32>,
    pub normals: Seq<u32>,
    pub infos: Seq<GpuMeshInfo>,
}

/// The buffers of these meshes, one after the other, with where each starts.
pub open spec fn joined_meshes(meshes: Seq<MeshValues>) -> MeshBuffersView
    decreases meshes.len(),
{
    if meshes.len() == 0 {
        MeshBuffersView {
            nodes: seq![],
            indices: seq![],
            vertices: seq![],
            normals: seq![],
            infos: seq![],
        }
    } else {
        let b = joined_meshes(meshes.drop_last());
        let m = meshes.last();
        MeshBuffersView {
            nodes: b.nodes + packed_nodes(m.blas@),
            indices: b.indices + leaf_triangles(m.blas@.order, m.indices@),
            vertices: b.vertices + components(m.positions@),
            normals: b.normals + mesh_normals(m),
            infos: b.infos.push(
                GpuMeshInfo {
                    node_offset: b.nodes.len() as u32,
                    index_offset: b.indices.len() as u32,
                    vertex_offset: (b.vertices.len() / 3) as u32,
                    has_normals: if m.normals is Some {
                        1
                    } else {
                        0
                    },
                },
            ),
        }
    }
}

pub open spec fn packed_instance(i: InstanceValues) -> GpuInstanceView {
    GpuInstanceView {
        inv: flatten::narrowed_all(i.inverse@),
        fwd: flatten::narrowed_all(i.transform@),
        mesh_id: i.mesh_id,
        material_id: i.material_id,
    }
}

/// The instances in the slots of a hierarchy, in their order.
pub open spec fn leaf_instances(order: Seq<u32>, instances: Seq<InstanceValues>) -> Seq<
    GpuInstanceView,
> {
    order.map_values(|i: u32| packed_instance(instances[i as int]))
}

/// Whether both transforms of every object and instance are affine.
pub open spec fn all_affine(s: PtSceneValues) -> bool {
    &&& forall|i: int|
        0 <= i < s.objects@.len() ==> flatten::is_affine((#[trigger] s.objects@[i]).inverse@)
            && flatten::is_affine(s.objects@[i].transform@)
    &&& forall|i: int|
        0 <= i < s.instances@.len() ==> flatten::is_affine((#[trigger] s.instances@[i]).inverse@)
            && flatten::is_affine(s.instances@[i].transform@)
}

pub open spec fn pt_uniforms<F: Fn(Op, u64, u64) -> u64>(f: F, s: PtSceneValues) -> GpuPtUniforms {
    let env = last_env(s.lights@);
    GpuPtUniforms {
        width: s.camera.width,
        height: s.camera.height,
        sample_start: 0,
        sample_count: 0,
        object_count: s.objects@.len() as u32,
        instance_count: s.instances@.len() as u32,
        light_count: s.lights@.len() as u32,
        max_bounces: MAX_BOUNCES,
        rr_start: RR_START,
        y_offset: 0,
        firefly_clamp: FIREFLY_CLAMP,
        background: flatten::narrowed3(s.background),
        eye: flatten::narrowed3(s.camera.eye),
        forward: flatten::narrowed3(s.camera.forward),
        right: flatten::narrowed3(s.camera.right),
        up: flatten::narrowed3(s.camera.up),
        half_width: double::narrowed(flatten::half_width_of(f, s.camera)),
        half_height: double::narrowed(flatten::half_height_of(f, s.camera)),
        dome_index: last_dome(s.lights@),
        env_width: env.width,
        env_height: env.height,
        env_total: env.total,
    }
}

pub open spec fn blank_pt_material() -> GpuPtMaterial {
    let zero3 = zero3();
    GpuPtMaterial {
        diffuse_gain: 0,
        diffuse_color: zero3,
        diffuse_sigma: 0,
        spec_f0: zero3,
        spec_f90: zero3,
        spec_alpha: 0,
        coat_gain: 0,
        coat_alpha: 0,
        fuzz_gain: 0,
        fuzz_color: zero3,
        glass_gain: 0,
        glass_ior: 0,
        glass_alpha: 0,
        refr_color: zero3,
        emission: zero3,
        presence: 0,
        under_scale: 0,
        weights: (0, 0, 0, 0, 0),
        area_light: 0,
    }
}

pub open spec fn blank_pt_light() -> GpuPtLight {
    GpuPtLight {
        kind: 0,
        a: zero3(),
        e1: zero3(),
        e2: zero3(),
        normal: zero3(),
        area: 0,
        radiance: zero3(),
    }
}

pub open spec fn blank_node() -> GpuBvhNode {
    GpuBvhNode { min: zero3(), left_or_first: 0, max: zero3(), count: 0 }
}

pub open spec fn blank_instance() -> GpuInstanceView {
    GpuInstanceView {
        inv: scene_buffers::zeros(16),
        fwd: scene_buffers::zeros(16),
        mesh_id: 0,
        material_id: 0,
    }
}

pub open spec fn blank_info() -> GpuMeshInfo {
    GpuMeshInfo { node_offset: 0, index_offset: 0, vertex_offset: 0, has_normals: 0 }
}

/// The words themselves, or `n` zeros where there are none.
pub open spec fn or_zeros(v: Seq<u32>, n: nat) -> Seq<u32> {
    if v.len() == 0 {
        scene_buffers::zeros(n)
    } else {
        v
    }
}

/// The boxes of instances.
pub open spec fn instance_boxes(instances: Seq<InstanceValues>) -> Seq<Aabb> {
    instances.map_values(|i: InstanceValues| i.bounds)
}

/// The buffers of a scene, with a hierarchy over its instances; none is empty.
pub open spec fn packed_pt_scene<F: Fn(Op, u64, u64) -> u64>(f: F, s: PtSceneValues) -> GpuPtSceneView {
    let tlas = bvh::hierarchy_over(instance_boxes(s.instances@), f);
    let meshes = joined_meshes(s.meshes@);
    let env = last_env(s.lights@);
    GpuPtSceneView {
        objects: scene_buffers::or_blank(
            s.objects@.map_values(
                |o: ObjectValues| scene_buffers::packed_object(flatten::flat_object(o)),
            ),
            scene_buffers::blank_object(),
        ),
        object_materials: or_zeros(s.objects@.map_values(|o: ObjectValues| o.material_id as u32), 1),
        materials: scene_buffers::or_blank(
            s.materials@.map_values(|m: PtMaterialValues| packed_pt_material(f, m)),
            blank_pt_material(),
        ),
        lights: scene_buffers::or_blank(
            s.lights@.map_values(|l: PtLightValues| packed_pt_light(f, l)),
            blank_pt_light(),
        ),
        tlas_nodes: scene_buffers::or_blank(packed_nodes(tlas), blank_node()),
        instances: scene_buffers::or_blank(
            leaf_instances(tlas.order, s.instances@),
            blank_instance(),
        ),
        blas_nodes: scene_buffers::or_blank(meshes.nodes, blank_node()),
        tri_indices: or_zeros(meshes.indices, 3),
        vertices: or_zeros(meshes.vertices, 3),
        normals: or_zeros(meshes.normals, 3),
        mesh_infos: scene_buffers::or_blank(meshes.infos, blank_info()),
        env_pixels: or_zeros(env.pixels, 3),
        env_marginal: or_zeros(env.marginal, 1),
        env_conditional: or_zeros(env.conditional, 1),
        uniforms: pt_uniforms(f, s),
    }
}

/// The hierarchies fit what they order, and everything can be counted.
pub open spec fn is_pt_scene(s: PtSceneValues) -> bool {
    let meshes = joined_meshes(s.meshes@);
    &&& forall|i: int| 0 <= i < s.meshes@.len() ==> mesh_fits(#[trigger] s.meshes@[i])
    &&& s.instances@.len() <= 0x7fff_ffff
    &&& s.objects@.len() <= u32::MAX
    &&& s.lights@.len() < u32::MAX
    &&& forall|i: int| 0 <= i < s.objects@.len() ==> (#[trigger] s.objects@[i]).material_id <= u32::MAX
    &&& meshes.nodes.len() <= u32::MAX
    &&& meshes.indices.len() <= u32::MAX
    &&& meshes.vertices.len() <= u32::MAX
}

/// The hierarchy of a mesh orders its triangles.
pub open spec fn mesh_fits(m: MeshValues) -> bool {
    &&& bvh::is_tree(m.blas@)
    &&& 3 * m.blas@.order.len() <= m.indices@.len()
}

// ---- building --------------------------------------------------------------

fn blank3() -> (r: Single3)
    ensures
        r == zero3(),
{
    Single3 { x: 0, y: 0, z: 0 }
}

/// The nodes of a hierarchy.
fn export_bvh(b: &Bvh, out: &mut Vec<GpuBvhNode>)
    ensures
        final(out)@ == old(out)@ + packed_nodes(b@),
{
    let nodes: &[Node] = b.node_views();
    let n: usize = nodes.len();
    let ghost all = packed_nodes(b@);
    let ghost before = out@;
    let mut i: usize = 0;
    assert(before + all.take(0) =~= before);
    while i < n
        invariant
            i <= n == nodes@.len(),
            nodes@ == b@.nodes,
            all == packed_nodes(b@),
            out@ == before + all.take(i as int),
        decreases n - i,
    {
        let node: Node = nodes[i];
        out.push(
            GpuBvhNode {
                min: flatten::narrow3(node.bounds.min),
                left_or_first: node.first,
                max: flatten::narrow3(node.bounds.max),
                count: node.count,
            },
        );
        i += 1;
        assert(out@ =~= before + all.take(i as int));
    }
    assert(all.take(n as int) =~= all);
}

fn find_width<F: Fn(Op, u64, u64) -> u64>(f: &F, roughness: u64) -> (r: u64)
    requires
        computes(*f),
    ensures
        r == lobe_width(*f, roughness),
{
    double::clamp(times(f, roughness, roughness), LEAST_WIDTH, ONE)
}

fn find_light_below<F: Fn(Op, u64, u64) -> u64>(f: &F, m: &PtMaterialValues) -> (r: u64)
    requires
        computes(*f),
    ensures
        r == light_below(*f, *m),
{
    let specular: u64 = luminance(&m.spec_f0, f);
    let coat: u64 = times(f, COAT_TAKE, m.coat_gain);
    double::clamp(times(f, minus(f, ONE, specular), minus(f, ONE, coat)), ZERO, ONE)
}

fn pack_pt_material<F: Fn(Op, u64, u64) -> u64>(f: &F, m: &PtMaterialValues) -> (r: GpuPtMaterial)
    requires
        computes(*f),
    ensures
        r == packed_pt_material(*f, *m),
{
    GpuPtMaterial {
        diffuse_gain: double::narrow(m.diffuse_gain),
        diffuse_color: flatten::narrow3(m.diffuse_color),
        diffuse_sigma: double::narrow(m.diffuse_sigma),
        spec_f0: flatten::narrow3(m.spec_f0),
        spec_f90: flatten::narrow3(m.spec_f90),
        spec_alpha: double::narrow(find_width(f, m.spec_roughness)),
        coat_gain: double::narrow(m.coat_gain),
        coat_alpha: double::narrow(find_width(f, m.coat_roughness)),
        fuzz_gain: double::narrow(m.fuzz_gain),
        fuzz_color: flatten::narrow3(m.fuzz_color),
        glass_gain: double::narrow(m.glass_gain),
        glass_ior: double::narrow(m.glass_ior),
        glass_alpha: double::narrow(find_width(f, m.glass_roughness)),
        refr_color: flatten::narrow3(m.refr_color),
        emission: flatten::narrow3(add_vectors(f, m.emission, m.glow)),
        presence: double::narrow(m.presence),
        under_scale: double::narrow(find_light_below(f, m)),
        weights: (
            double::narrow(m.weights.0),
            double::narrow(m.weights.1),
            double::narrow(m.weights.2),
            double::narrow(m.weights.3),
            double::narrow(m.weights.4),
        ),
        area_light: match m.area_light {
            Some(i) => i,
            None => u32::MAX,
        },
    }
}

fn pack_pt_light<F: Fn(Op, u64, u64) -> u64>(f: &F, l: &PtLightValues) -> (r: GpuPtLight)
    requires
        computes(*f),
    ensures
        r == packed_pt_light(*f, *l),
{
    let plain: GpuPtLight = GpuPtLight {
        kind: 0,
        a: blank3(),
        e1: blank3(),
        e2: blank3(),
        normal: blank3(),
        area: 0,
        radiance: flatten::narrow3(multiply_vector(f, l.color, l.intensity)),
    };
    match &l.shape {
        LightShape::Point { position } => GpuPtLight { a: flatten::narrow3(*position), ..plain },
        LightShape::Distant { direction, angular_radius } => GpuPtLight {
            kind: 1,
            a: flatten::narrow3(*direction),
            area: double::narrow(*angular_radius),
            ..plain
        },
        LightShape::Rect { corner, edge1, edge2, normal, area } => GpuPtLight {
            kind: 2,
            a: flatten::narrow3(*corner),
            e1: flatten::narrow3(*edge1),
            e2: flatten::narrow3(*edge2),
            normal: flatten::narrow3(*normal),
            area: double::narrow(*area),
            ..plain
        },
        LightShape::SphereArea { center, radius } => GpuPtLight {
            kind: 3,
            a: flatten::narrow3(*center),
            area: double::narrow(*radius),
            ..plain
        },
        LightShape::DiskArea { center, e1, e2, normal, area } => GpuPtLight {
            kind: 4,
            a: flatten::narrow3(*center),
            e1: flatten::narrow3(*e1),
            e2: flatten::narrow3(*e2),
            normal: flatten::narrow3(*normal),
            area: double::narrow(*area),
            ..plain
        },
        LightShape::Dome { .. } => GpuPtLight { kind: 5, ..plain },
    }
}

/// The dome light and its environment.
fn find_dome(lights: &Vec<PtLightValues>) -> (r: (u32, EnvValues))
    requires
        lights@.len() < u32::MAX,
    ensures
        r.0 == last_dome(lights@),
        r.1@ == last_env(lights@),
{
    let n: usize = lights.len();
    let mut dome: u32 = u32::MAX;
    let mut env: EnvValues = EnvValues {
        width: 0,
        height: 0,
        pixels: Vec::new(),
        marginal: Vec::new(),
        conditional: Vec::new(),
        total: 0,
    };
    let mut i: usize = 0;
    proof {
        assert(lights@.take(0) =~= seq![]);
        assert(env@.pixels =~= seq![]);
        assert(env@.marginal =~= seq![]);
        assert(env@.conditional =~= seq![]);
    }
    while i < n
        invariant
            i <= n == lights@.len(),
            n < u32::MAX,
            dome == last_dome(lights@.take(i as int)),
            env@ == last_env(lights@.take(i as int)),
        decreases n - i,
    {
        proof {
            assert(lights@.take(i + 1).drop_last() =~= lights@.take(i as int));
            assert(lights@.take(i + 1).last() == lights@[i as int]);
        }
        match &lights[i].shape {
            LightShape::Dome { env: found } => {
                dome = i as u32;
                match found {
                    Some(e) => {
                        env = EnvValues {
                            width: e.width,
                            height: e.height,
                            pixels: copy_words(&e.pixels),
                            marginal: copy_words(&e.marginal),
                            conditional: copy_words(&e.conditional),
                            total: e.total,
                        };
                    },
                    None => {},
                }
            },
            _ => {},
        }
        i += 1;
    }
    assert(lights@.take(n as int) =~= lights@);
    (dome, env)
}

fn push_leaf_triangles(out: &mut Vec<u32>, order: &[u32], indices: &Vec<u32>)
    requires
        3 * order@.len() <= indices@.len(),
        forall|s: int| 0 <= s < order@.len() ==> #[trigger] order@[s] < order@.len(),
    ensures
        final(out)@ == old(out)@ + leaf_triangles(order@, indices@),
{
    let n: usize = order.len();
    let total: usize = indices.len();
    let ghost all = leaf_triangles(order@, indices@);
    let ghost before = out@;
    let mut i: usize = 0;
    assert(before + all.take(0) =~= before);
    while i < n
        invariant
            i <= n == order@.len(),
            total == indices@.len(),
            3 * n <= total,
            forall|s: int| 0 <= s < order@.len() ==> #[trigger] order@[s] < order@.len(),
            all == leaf_triangles(order@, indices@),
            out@ == before + all.take(3 * i as int),
        decreases n - i,
    {
        let base: usize = order[i] as usize * 3;
        out.push(indices[base]);
        out.push(indices[base + 1]);
        out.push(indices[base + 2]);
        proof {
            let k = 3 * i as int;
            assert(all[k] == indices@[base as int]);
            assert(all[k + 1] == indices@[base + 1]);
            assert(all[k + 2] == indices@[base + 2]);
            assert(out@ =~= before + all.take(k + 3));
        }
        i += 1;
    }
    assert(all.take(3 * n as int) =~= all);
}

fn push_components(out: &mut Vec<u32>, points: &Vec<Single3>)
    ensures
        final(out)@ == old(out)@ + components(points@),
{
    let n: usize = points.len();
    let ghost all = components(points@);
    let ghost before = out@;
    let mut i: usize = 0;
    assert(before + all.take(0) =~= before);
    while i < n
        invariant
            i <= n == points@.len(),
            all == components(points@),
            out@ == before + all.take(3 * i as int),
        decreases n - i,
    {
        let p: Single3 = points[i];
        out.push(p.x);
        out.push(p.y);
        out.push(p.z);
        proof {
            let k = 3 * i as int;
            assert(all[k] == p.x);
            assert(all[k + 1] == p.y);
            assert(all[k + 2] == p.z);
            assert(out@ =~= before + all.take(k + 3));
        }
        i += 1;
    }
    assert(all.take(3 * n as int) =~= all);
}

/// The concatenated buffers of meshes.
struct MeshBuffers {
    nodes: Vec<GpuBvhNode>,
    indices: Vec<u32>,
    vertices: Vec<u32>,
    normals: Vec<u32>,
    infos: Vec<GpuMeshInfo>,
}

impl View for MeshBuffers {
    type V = MeshBuffersView;

    closed spec fn view(&self) -> MeshBuffersView {
        MeshBuffersView {
            nodes: self.nodes@,
            indices: self.indices@,
            vertices: self.vertices@,
            normals: self.normals@,
            infos: self.infos@,
        }
    }
}

/// The buffers of some of the meshes are no larger than those of all.
proof fn joined_grow(meshes: Seq<MeshValues>, n: int)
    requires
        0 <= n <= meshes.len(),
    ensures
        joined_meshes(meshes.take(n)).nodes.len() <= joined_meshes(meshes).nodes.len(),
        joined_meshes(meshes.take(n)).indices.len() <= joined_meshes(meshes).indices.len(),
        joined_meshes(meshes.take(n)).vertices.len() <= joined_meshes(meshes).vertices.len(),
    decreases meshes.len() - n,
{
    if n == meshes.len() {
        assert(meshes.take(n) =~= meshes);
    } else {
        assert(meshes.take(n + 1).drop_last() =~= meshes.take(n));
        joined_grow(meshes, n + 1);
    }
}

/// Concatenate meshes, permuting triangles into leaf order.
fn join_meshes(meshes: &Vec<MeshValues>) -> (r: MeshBuffers)
    requires
        forall|i: int| 0 <= i < meshes@.len() ==> mesh_fits(#[trigger] meshes@[i]),
        joined_meshes(meshes@).nodes.len() <= u32::MAX,
        joined_meshes(meshes@).indices.len() <= u32::MAX,
        joined_meshes(meshes@).vertices.len() <= u32::MAX,
    ensures
        r@ == joined_meshes(meshes@),
{
    let n: usize = meshes.len();
    let mut b: MeshBuffers = MeshBuffers {
        nodes: Vec::new(),
        indices: Vec::new(),
        vertices: Vec::new(),
        normals: Vec::new(),
        infos: Vec::new(),
    };
    let mut i: usize = 0;
    proof {
        assert(meshes@.take(0) =~= seq![]);
        assert(b@.nodes =~= seq![]);
        assert(b@.indices =~= seq![]);
        assert(b@.vertices =~= seq![]);
        assert(b@.normals =~= seq![]);
        assert(b@.infos =~= seq![]);
    }
    while i < n
        invariant
            i <= n == meshes@.len(),
            forall|i: int| 0 <= i < meshes@.len() ==> mesh_fits(#[trigger] meshes@[i]),
            joined_meshes(meshes@).nodes.len() <= u32::MAX,
            joined_meshes(meshes@).indices.len() <= u32::MAX,
            joined_meshes(meshes@).vertices.len() <= u32::MAX,
            b@ == joined_meshes(meshes@.take(i as int)),
        decreases n - i,
    {
        let m: &MeshValues = &meshes[i];
        let ghost before = b@;
        proof {
            assert(meshes@.take(i + 1).drop_last() =~= meshes@.take(i as int));
            assert(meshes@.take(i + 1).last() == *m);
            joined_grow(meshes@, i as int);
            assert(mesh_fits(meshes@[i as int]));
        }
        let info: GpuMeshInfo = GpuMeshInfo {
            node_offset: b.nodes.len() as u32,
            index_offset: b.indices.len() as u32,
            vertex_offset: (b.vertices.len() / 3) as u32,
            has_normals: if m.normals.is_some() {
                1
            } else {
                0
            },
        };
        export_bvh(&m.blas, &mut b.nodes);
        push_leaf_triangles(&mut b.indices, m.blas.prim_order(), &m.indices);
        push_components(&mut b.vertices, &m.positions);
        match &m.normals {
            Some(normals) => {
                push_components(&mut b.normals, normals);
            },
            None => {
                let mut k: usize = 0;
                let count: usize = m.positions.len();
                let ghost start = b.normals@;
                assert(start + scene_buffers::zeros(0) =~= start);
                while k < count
                    invariant
                        k <= count,
                        b.normals@ == start + scene_buffers::zeros(3 * k as nat),
                        b.nodes@ == before.nodes + packed_nodes(m.blas@),
                        b.indices@ == before.indices + leaf_triangles(m.blas@.order, m.indices@),
                        b.vertices@ == before.vertices + components(m.positions@),
                        b.infos@ == before.infos,
                    decreases count - k,
                {
                    b.normals.push(0);
                    b.normals.push(0);
                    b.normals.push(0);
                    k += 1;
                    assert(b.normals@ =~= start + scene_buffers::zeros(3 * k as nat));
                }
            },
        }
        b.infos.push(info);
        i += 1;
    }
    assert(meshes@.take(n as int) =~= meshes@);
    b
}

/// The instances in the slots of a hierarchy.
fn order_instances(order: &[u32], instances: &Vec<InstanceValues>) -> (r: Result<
    Vec<GpuInstance>,
    FlattenError,
>)
    requires
        order@.len() == instances@.len(),
        bvh::is_order(order@, order@.len() as int),
    ensures
        match r {
            Ok(v) => instance_views(v@) == leaf_instances(order@, instances@) && forall|i: int|
                0 <= i < instances@.len() ==> flatten::is_affine(
                    (#[trigger] instances@[i]).inverse@,
                ) && flatten::is_affine(instances@[i].transform@),
            Err(e) => e == FlattenError::NotAffine && !(forall|i: int|
                0 <= i < instances@.len() ==> flatten::is_affine(
                    (#[trigger] instances@[i]).inverse@,
                ) && flatten::is_affine(instances@[i].transform@)),
        },
{
    let n: usize = order.len();
    let ghost all = leaf_instances(order@, instances@);
    let mut out: Vec<GpuInstance> = Vec::new();
    let mut k: usize = 0;
    assert(instance_views(out@) =~= all.take(0));
    while k < n
        invariant
            k <= n == order@.len(),
            order@.len() == instances@.len(),
            bvh::is_order(order@, order@.len() as int),
            all == leaf_instances(order@, instances@),
            instance_views(out@) == all.take(k as int),
            forall|s: int|
                0 <= s < k ==> flatten::is_affine(
                    instances@[#[trigger] order@[s] as int].inverse@,
                ) && flatten::is_affine(instances@[order@[s] as int].transform@),
        decreases n - k,
    {
        let i: &InstanceValues = &instances[order[k] as usize];
        let inv: Vec<u32> = match flatten::matrix_to_f32(&i.inverse) {
            Ok(m) => m,
            Err(e) => {
                assert(!flatten::is_affine(instances@[order@[k as int] as int].inverse@));
                return Err(e);
            },
        };
        let fwd: Vec<u32> = match flatten::matrix_to_f32(&i.transform) {
            Ok(m) => m,
            Err(e) => {
                assert(!flatten::is_affine(instances@[order@[k as int] as int].transform@));
                return Err(e);
            },
        };
        let placed: GpuInstance = GpuInstance {
            inv,
            fwd,
            mesh_id: i.mesh_id,
            material_id: i.material_id,
        };
        proof {
            assert(all[k as int] == placed@);
            assert(instance_views(out@.push(placed)) =~= instance_views(out@).push(placed@));
            assert(all.take(k + 1) =~= all.take(k as int).push(placed@));
        }
        out.push(placed);
        k += 1;
    }
    proof {
        assert(all.take(n as int) =~= all);
        assert forall|i: int| 0 <= i < instances@.len() implies flatten::is_affine(
            (#[trigger] instances@[i]).inverse@,
        ) && flatten::is_affine(instances@[i].transform@) by {
            slot_exists(order@, i);
            let s = choose|s: int| 0 <= s < order@.len() && #[trigger] order@[s] == i;
        }
    }
    Ok(out)
}

/// Every primitive stands in a slot: distinct numbers below `n` are all of them.
proof fn slot_exists(order: Seq<u32>, p: int)
    requires
        bvh::is_order(order, order.len() as int),
        0 <= p < order.len(),
    ensures
        exists|s: int| 0 <= s < order.len() && #[trigger] order[s] == p,
{
    let n = order.len();
    let ints = order.map_values(|x: u32| x as int);
    assert(ints.no_duplicates());
    let full = vstd::set_lib::set_int_range(0, n as int);
    vstd::set_lib::lemma_int_range(0, n as int);
    ints.unique_seq_to_set();
    assert(ints.to_set().subset_of(full)) by {
        assert forall|x: int| ints.to_set().contains(x) implies full.contains(x) by {
            let s = choose|s: int| 0 <= s < ints.len() && ints[s] == x;
            assert(order[s] < n);
        }
    }
    vstd::set_lib::lemma_subset_equality(ints.to_set(), full);
    assert(full.contains(p));
    assert(ints.contains(p));
    let s = choose|s: int| 0 <= s < ints.len() && ints[s] == p;
    assert(order[s] == p);
}

fn list_boxes(instances: &Vec<InstanceValues>) -> (r: Vec<Aabb>)
    ensures
        r@ == instance_boxes(instances@),
{
    let n: usize = instances.len();
    let ghost all = instance_boxes(instances@);
    let mut out: Vec<Aabb> = Vec::new();
    let mut i: usize = 0;
    assert(out@ =~= all.take(0));
    while i < n
        invariant
            i <= n == instances@.len(),
            all == instance_boxes(instances@),
            out@ == all.take(i as int),
        decreases n - i,
    {
        out.push(instances[i].bounds);
        i += 1;
        assert(out@ =~= all.take(i as int));
    }
    assert(all.take(n as int) =~= all);
    out
}

impl GpuPtScene {
    /// The buffers of a scene; an error where a transform is not affine.
    pub fn build<F: Fn(Op, u64, u64) -> u64>(scene: &PtSceneValues, f: &F) -> (r: Result<
        GpuPtScene,
        FlattenError,
    >)
        requires
            computes(*f),
            is_pt_scene(*scene),
        ensures
            match r {
                Ok(b) => all_affine(*scene) && b@ == packed_pt_scene(*f, *scene),
                Err(e) => !all_affine(*scene) && e == FlattenError::NotAffine,
            },
    {
        let ghost model = packed_pt_scene(*f, *scene);
        let ghost all_objects = scene.objects@.map_values(
            |o: ObjectValues| scene_buffers::packed_object(flatten::flat_object(o)),
        );
        let ghost all_ids = scene.objects@.map_values(|o: ObjectValues| o.material_id as u32);
        let n: usize = scene.objects.len();
        let mut objects: Vec<GpuObject> = Vec::new();
        let mut object_materials: Vec<u32> = Vec::new();
        let mut i: usize = 0;
        proof {
            assert(scene_buffers::gpu_object_views(objects@) =~= all_objects.take(0));
            assert(object_materials@ =~= all_ids.take(0));
        }
        while i < n
            invariant
                i <= n == scene.objects@.len(),
                is_pt_scene(*scene),
                all_objects == scene.objects@.map_values(
                    |o: ObjectValues| scene_buffers::packed_object(flatten::flat_object(o)),
                ),
                all_ids == scene.objects@.map_values(|o: ObjectValues| o.material_id as u32),
                scene_buffers::gpu_object_views(objects@) == all_objects.take(i as int),
                object_materials@ == all_ids.take(i as int),
                forall|k: int|
                    0 <= k < i ==> flatten::is_affine((#[trigger] scene.objects@[k]).inverse@)
                        && flatten::is_affine(scene.objects@[k].transform@),
            decreases n - i,
        {
            let o: &ObjectValues = &scene.objects[i];
            let inv: Vec<u32> = match flatten::matrix_to_f32(&o.inverse) {
                Ok(m) => m,
                Err(e) => {
                    assert(!flatten::is_affine(scene.objects@[i as int].inverse@));
                    return Err(e);
                },
            };
            let fwd: Vec<u32> = match flatten::matrix_to_f32(&o.transform) {
                Ok(m) => m,
                Err(e) => {
                    assert(!flatten::is_affine(scene.objects@[i as int].transform@));
                    return Err(e);
                },
            };
            let flat: FlatObject = FlatObject { kind: o.kind, inv, fwd };
            let packed: GpuObject = gpu_object(&flat);
            proof {
                assert(flat@ == flatten::flat_object(*o));
                assert(all_objects[i as int] == packed@);
                assert(scene_buffers::gpu_object_views(objects@.push(packed))
                    =~= scene_buffers::gpu_object_views(objects@).push(packed@));
                assert(all_objects.take(i + 1) =~= all_objects.take(i as int).push(packed@));
                assert(scene.objects@[i as int].material_id <= u32::MAX);
                assert(all_ids.take(i + 1) =~= all_ids.take(i as int).push(o.material_id as u32));
            }
            objects.push(packed);
            object_materials.push(o.material_id as u32);
            i += 1;
        }
        proof {
            assert(all_objects.take(n as int) =~= all_objects);
            assert(all_ids.take(n as int) =~= all_ids);
        }
        let materials: Vec<GpuPtMaterial> = pack_pt_materials(f, &scene.materials);
        let lights: Vec<GpuPtLight> = pack_pt_lights(f, &scene.lights);
        let (dome_index, env) = find_dome(&scene.lights);
        let meshes: MeshBuffers = join_meshes(&scene.meshes);
        let tlas: Bvh = Bvh::build(&list_boxes(&scene.instances), f);
        let order: &[u32] = tlas.prim_order();
        let instances: Vec<GpuInstance> = match order_instances(order, &scene.instances) {
            Ok(v) => v,
            Err(e) => {
                return Err(e);
            },
        };
        let mut tlas_nodes: Vec<GpuBvhNode> = Vec::new();
        export_bvh(&tlas, &mut tlas_nodes);
        assert(tlas_nodes@ =~= packed_nodes(tlas@));
        let c: CameraValues = scene.camera;
        let (half_width, half_height): (u64, u64) = c.half_sizes(f);
        let uniforms: GpuPtUniforms = GpuPtUniforms {
            width: c.width,
            height: c.height,
            sample_start: 0,
            sample_count: 0,
            object_count: objects.len() as u32,
            instance_count: instances.len() as u32,
            light_count: lights.len() as u32,
            max_bounces: MAX_BOUNCES,
            rr_start: RR_START,
            y_offset: 0,
            firefly_clamp: FIREFLY_CLAMP,
            background: flatten::narrow3(scene.background),
            eye: flatten::narrow3(c.eye),
            forward: flatten::narrow3(c.forward),
            right: flatten::narrow3(c.right),
            up: flatten::narrow3(c.up),
            half_width: double::narrow(half_width),
            half_height: double::narrow(half_height),
            dome_index,
            env_width: env.width,
            env_height: env.height,
            env_total: env.total,
        };
        proof {
            assert(instances@.len() == instance_views(instances@).len());
            assert(objects@.len() == all_objects.len());
            assert(uniforms == pt_uniforms(*f, *scene));
        }
        let out: GpuPtScene = GpuPtScene {
            objects,
            object_materials,
            materials,
            lights,
            tlas_nodes,
            instances,
            blas_nodes: meshes.nodes,
            tri_indices: meshes.indices,
            vertices: meshes.vertices,
            normals: meshes.normals,
            mesh_infos: meshes.infos,
            env_pixels: env.pixels,
            env_marginal: env.marginal,
            env_conditional: env.conditional,
            uniforms,
        };
        Ok(out.ensure_nonempty())
    }

    /// A buffer must not be empty; the counts in the uniforms keep the kernel from
    /// reading blanks.
    fn ensure_nonempty(self) -> (r: GpuPtScene)
        ensures
            r@ == nonempty(self@),
    {
        GpuPtScene {
            objects: fill_objects(self.objects),
            object_materials: fill_words(self.object_materials, 1),
            materials: fill_materials(self.materials),
            lights: fill_lights(self.lights),
            tlas_nodes: fill_nodes(self.tlas_nodes),
            instances: fill_instances(self.instances),
            blas_nodes: fill_nodes(self.blas_nodes),
            tri_indices: fill_words(self.tri_indices, 3),
            vertices: fill_words(self.vertices, 3),
            normals: fill_words(self.normals, 3),
            mesh_infos: fill_infos(self.mesh_infos),
            env_pixels: fill_words(self.env_pixels, 3),
            env_marginal: fill_words(self.env_marginal, 1),
            env_conditional: fill_words(self.env_conditional, 1),
            uniforms: self.uniforms,
        }
    }
}

fn fill_words(v: Vec<u32>, n: usize) -> (r: Vec<u32>)
    ensures
        r@ == or_zeros(v@, n as nat),
{
    if v.len() == 0 {
        zero_words(n)
    } else {
        v
    }
}

fn fill_objects(v: Vec<GpuObject>) -> (r: Vec<GpuObject>)
    ensures
        scene_buffers::gpu_object_views(r@) == scene_buffers::or_blank(
            scene_buffers::gpu_object_views(v@),
            scene_buffers::blank_object(),
        ),
{
    let mut v = v;
    if v.len() == 0 {
        v.push(zero_object());
        assert(scene_buffers::gpu_object_views(v@) =~= seq![scene_buffers::blank_object()]);
    }
    v
}

fn fill_materials(v: Vec<GpuPtMaterial>) -> (r: Vec<GpuPtMaterial>)
    ensures
        r@ == scene_buffers::or_blank(v@, blank_pt_material()),
{
    let mut v = v;
    if v.len() == 0 {
        v.push(zero_pt_material());
        assert(v@ =~= seq![blank_pt_material()]);
    }
    v
}

fn fill_lights(v: Vec<GpuPtLight>) -> (r: Vec<GpuPtLight>)
    ensures
        r@ == scene_buffers::or_blank(v@, blank_pt_light()),
{
    let mut v = v;
    if v.len() == 0 {
        v.push(
            GpuPtLight {
                kind: 0,
                a: blank3(),
                e1: blank3(),
                e2: blank3(),
                normal: blank3(),
                area: 0,
                radiance: blank3(),
            },
        );
        assert(v@ =~= seq![blank_pt_light()]);
    }
    v
}

fn fill_nodes(v: Vec<GpuBvhNode>) -> (r: Vec<GpuBvhNode>)
    ensures
        r@ == scene_buffers::or_blank(v@, blank_node()),
{
    let mut v = v;
    if v.len() == 0 {
        v.push(GpuBvhNode { min: blank3(), left_or_first: 0, max: blank3(), count: 0 });
        assert(v@ =~= seq![blank_node()]);
    }
    v
}

fn fill_instances(v: Vec<GpuInstance>) -> (r: Vec<GpuInstance>)
    ensures
        instance_views(r@) == scene_buffers::or_blank(instance_views(v@), blank_instance()),
{
    let mut v = v;
    if v.len() == 0 {
        v.push(
            GpuInstance { inv: zero_words(16), fwd: zero_words(16), mesh_id: 0, material_id: 0 },
        );
        assert(instance_views(v@) =~= seq![blank_instance()]);
    }
    v
}

fn fill_infos(v: Vec<GpuMeshInfo>) -> (r: Vec<GpuMeshInfo>)
    ensures
        r@ == scene_buffers::or_blank(v@, blank_info()),
{
    let mut v = v;
    if v.len() == 0 {
        v.push(
            GpuMeshInfo { node_offset: 0, index_offset: 0, vertex_offset: 0, has_normals: 0 },
        );
        assert(v@ =~= seq![blank_info()]);
    }
    v
}

/// The buffers with blanks in those that are empty.
pub open spec fn nonempty(s: GpuPtSceneView) -> GpuPtSceneView {
    GpuPtSceneView {
        objects: scene_buffers::or_blank(s.objects, scene_buffers::blank_object()),
        object_materials: or_zeros(s.object_materials, 1),
        materials: scene_buffers::or_blank(s.materials, blank_pt_material()),
        lights: scene_buffers::or_blank(s.lights, blank_pt_light()),
        tlas_nodes: scene_buffers::or_blank(s.tlas_nodes, blank_node()),
        instances: scene_buffers::or_blank(s.instances, blank_instance()),
        blas_nodes: scene_buffers::or_blank(s.blas_nodes, blank_node()),
        tri_indices: or_zeros(s.tri_indices, 3),
        vertices: or_zeros(s.vertices, 3),
        normals: or_zeros(s.normals, 3),
        mesh_infos: scene_buffers::or_blank(s.mesh_infos, blank_info()),
        env_pixels: or_zeros(s.env_pixels, 3),
        env_marginal: or_zeros(s.env_marginal, 1),
        env_conditional: or_zeros(s.env_conditional, 1),
        uniforms: s.uniforms,
    }
}

fn zero_pt_material() -> (r: GpuPtMaterial)
    ensures
        r == blank_pt_material(),
{
    let zero3: Single3 = blank3();
    GpuPtMaterial {
        diffuse_gain: 0,
        diffuse_color: zero3,
        diffuse_sigma: 0,
        spec_f0: zero3,
        spec_f90: zero3,
        spec_alpha: 0,
        coat_gain: 0,
        coat_alpha: 0,
        fuzz_gain: 0,
        fuzz_color: zero3,
        glass_gain: 0,
        glass_ior: 0,
        glass_alpha: 0,
        refr_color: zero3,
        emission: zero3,
        presence: 0,
        under_scale: 0,
        weights: (0, 0, 0, 0, 0),
        area_light: 0,
    }
}

fn pack_pt_materials<F: Fn(Op, u64, u64) -> u64>(f: &F, v: &Vec<PtMaterialValues>) -> (r: Vec<GpuPtMaterial>)
    requires
        computes(*f),
    ensures
        r@ == v@.map_values(|m: PtMaterialValues| packed_pt_material(*f, m)),
{
    let ghost all = v@.map_values(|m: PtMaterialValues| packed_pt_material(*f, m));
    let n: usize = v.len();
    let mut out: Vec<GpuPtMaterial> = Vec::new();
    let mut i: usize = 0;
    assert(out@ =~= all.take(0));
    while i < n
        invariant
            i <= n == v@.len(),
            computes(*f),
            all == v@.map_values(|m: PtMaterialValues| packed_pt_material(*f, m)),
            out@ == all.take(i as int),
        decreases n - i,
    {
        out.push(pack_pt_material(f, &v[i]));
        i += 1;
        assert(out@ =~= all.take(i as int));
    }
    assert(all.take(n as int) =~= all);
    out
}

fn pack_pt_lights<F: Fn(Op, u64, u64) -> u64>(f: &F, v: &Vec<PtLightValues>) -> (r: Vec<GpuPtLight>)
    requires
        computes(*f),
    ensures
        r@ == v@.map_values(|l: PtLightValues| packed_pt_light(*f, l)),
{
    let ghost all = v@.map_values(|l: PtLightValues| packed_pt_light(*f, l));
    let n: usize = v.len();
    let mut out: Vec<GpuPtLight> = Vec::new();
    let mut i: usize = 0;
    assert(out@ =~= all.take(0));
    while i < n
        invariant
            i <= n == v@.len(),
            computes(*f),
            all == v@.map_values(|l: PtLightValues| packed_pt_light(*f, l)),
            out@ == all.take(i as int),
        decreases n - i,
    {
        out.push(pack_pt_light(f, &v[i]));
        i += 1;
        assert(out@ =~= all.take(i as int));
    }
    assert(all.take(n as int) =~= all);
    out
}

// ---- words and bytes -------------------------------------------------------

pub open spec fn pt_material_words(m: GpuPtMaterial) -> Seq<u32> {
    seq![
        m.diffuse_gain,
        m.diffuse_color.x,
        m.diffuse_color.y,
        m.diffuse_color.z,
        m.diffuse_sigma,
        m.spec_f0.x,
        m.spec_f0.y,
        m.spec_f0.z,
        m.spec_f90.x,
        m.spec_f90.y,
        m.spec_f90.z,
        m.spec_alpha,
        m.coat_gain,
        m.coat_alpha,
        m.fuzz_gain,
        m.fuzz_color.x,
        m.fuzz_color.y,
        m.fuzz_color.z,
        m.glass_gain,
        m.glass_ior,
        m.glass_alpha,
        m.refr_color.x,
        m.refr_color.y,
        m.refr_color.z,
        m.emission.x,
        m.emission.y,
        m.emission.z,
        m.presence,
        m.under_scale,
        m.weights.0,
        m.weights.1,
        m.weights.2,
        m.weights.3,
        m.weights.4,
        m.area_light,
    ]
}

pub open spec fn pt_light_words(l: GpuPtLight) -> Seq<u32> {
    seq![
        l.kind, l.a.x, l.a.y, l.a.z, l.e1.x, l.e1.y, l.e1.z, l.e2.x, l.e2.y, l.e2.z, l.normal.x, l.normal.y, l.normal.z, l.area, l.radiance.x, l.radiance.y, l.radiance.z, 0, 0,
    ]
}

pub open spec fn node_words(n: GpuBvhNode) -> Seq<u32> {
    seq![n.min.x, n.min.y, n.min.z, n.left_or_first, n.max.x, n.max.y, n.max.z, n.count,]
}

pub open spec fn instance_words(i: GpuInstanceView) -> Seq<u32> {
    i.inv + i.fwd + seq![i.mesh_id, i.material_id, 0, 0]
}

pub open spec fn info_words(m: GpuMeshInfo) -> Seq<u32> {
    seq![m.node_offset, m.index_offset, m.vertex_offset, m.has_normals,]
}

/// The words of materials.
fn list_material_words(v: &Vec<GpuPtMaterial>) -> (r: Vec<u32>)
    ensures
        r@ == scene_buffers::words_of(v@, |m: GpuPtMaterial| pt_material_words(m)),
{
    let ghost f = |m: GpuPtMaterial| pt_material_words(m);
    let n: usize = v.len();
    let mut out: Vec<u32> = Vec::new();
    let mut i: usize = 0;
    assert(v@.take(0) =~= seq![]);
    while i < n
        invariant
            i <= n == v@.len(),
            f == (|m: GpuPtMaterial| pt_material_words(m)),
            out@ == scene_buffers::words_of(v@.take(i as int), f),
        decreases n - i,
    {
        let m: GpuPtMaterial = v[i];
        let words: Vec<u32> = vec![
        m.diffuse_gain,
        m.diffuse_color.x,
        m.diffuse_color.y,
        m.diffuse_color.z,
        m.diffuse_sigma,
        m.spec_f0.x,
        m.spec_f0.y,
        m.spec_f0.z,
        m.spec_f90.x,
        m.spec_f90.y,
        m.spec_f90.z,
        m.spec_alpha,
        m.coat_gain,
        m.coat_alpha,
        m.fuzz_gain,
        m.fuzz_color.x,
        m.fuzz_color.y,
        m.fuzz_color.z,
        m.glass_gain,
        m.glass_ior,
        m.glass_alpha,
        m.refr_color.x,
        m.refr_color.y,
        m.refr_color.z,
        m.emission.x,
        m.emission.y,
        m.emission.z,
        m.presence,
        m.under_scale,
        m.weights.0,
        m.weights.1,
        m.weights.2,
        m.weights.3,
        m.weights.4,
        m.area_light,
        ];
        proof {
            assert(words@ =~= pt_material_words(m));
            assert(v@.take(i + 1).drop_last() =~= v@.take(i as int));
        }
        push_words(&mut out, &words);
        i += 1;
    }
    assert(v@.take(n as int) =~= v@);
    out
}

/// The words of lights.
fn list_light_words(v: &Vec<GpuPtLight>) -> (r: Vec<u32>)
    ensures
        r@ == scene_buffers::words_of(v@, |l: GpuPtLight| pt_light_words(l)),
{
    let ghost f = |l: GpuPtLight| pt_light_words(l);
    let n: usize = v.len();
    let mut out: Vec<u32> = Vec::new();
    let mut i: usize = 0;
    assert(v@.take(0) =~= seq![]);
    while i < n
        invariant
            i <= n == v@.len(),
            f == (|l: GpuPtLight| pt_light_words(l)),
            out@ == scene_buffers::words_of(v@.take(i as int), f),
        decreases n - i,
    {
        let l: GpuPtLight = v[i];
        let words: Vec<u32> = vec![
        l.kind, l.a.x, l.a.y, l.a.z, l.e1.x, l.e1.y, l.e1.z, l.e2.x, l.e2.y, l.e2.z, l.normal.x, l.normal.y, l.normal.z, l.area, l.radiance.x, l.radiance.y, l.radiance.z, 0, 0,
        ];
        proof {
            assert(words@ =~= pt_light_words(l));
            assert(v@.take(i + 1).drop_last() =~= v@.take(i as int));
        }
        push_words(&mut out, &words);
        i += 1;
    }
    assert(v@.take(n as int) =~= v@);
    out
}

/// The words of nodes.
fn list_node_words(v: &Vec<GpuBvhNode>) -> (r: Vec<u32>)
    ensures
        r@ == scene_buffers::words_of(v@, |a: GpuBvhNode| node_words(a)),
{
    let ghost f = |a: GpuBvhNode| node_words(a);
    let n: usize = v.len();
    let mut out: Vec<u32> = Vec::new();
    let mut i: usize = 0;
    assert(v@.take(0) =~= seq![]);
    while i < n
        invariant
            i <= n == v@.len(),
            f == (|a: GpuBvhNode| node_words(a)),
            out@ == scene_buffers::words_of(v@.take(i as int), f),
        decreases n - i,
    {
        let a: GpuBvhNode = v[i];
        let words: Vec<u32> = vec![
        a.min.x, a.min.y, a.min.z, a.left_or_first, a.max.x, a.max.y, a.max.z, a.count,
        ];
        proof {
            assert(words@ =~= node_words(a));
            assert(v@.take(i + 1).drop_last() =~= v@.take(i as int));
        }
        push_words(&mut out, &words);
        i += 1;
    }
    assert(v@.take(n as int) =~= v@);
    out
}

/// The words of mesh infos.
fn list_info_words(v: &Vec<GpuMeshInfo>) -> (r: Vec<u32>)
    ensures
        r@ == scene_buffers::words_of(v@, |m: GpuMeshInfo| info_words(m)),
{
    let ghost f = |m: GpuMeshInfo| info_words(m);
    let n: usize = v.len();
    let mut out: Vec<u32> = Vec::new();
    let mut i: usize = 0;
    assert(v@.take(0) =~= seq![]);
    while i < n
        invariant
            i <= n == v@.len(),
            f == (|m: GpuMeshInfo| info_words(m)),
            out@ == scene_buffers::words_of(v@.take(i as int), f),
        decreases n - i,
    {
        let m: GpuMeshInfo = v[i];
        let words: Vec<u32> = vec![
        m.node_offset, m.index_offset, m.vertex_offset, m.has_normals,
        ];
        proof {
            assert(words@ =~= info_words(m));
            assert(v@.take(i + 1).drop_last() =~= v@.take(i as int));
        }
        push_words(&mut out, &words);
        i += 1;
    }
    assert(v@.take(n as int) =~= v@);
    out
}

/// The words of instances.
fn list_instance_words(v: &Vec<GpuInstance>) -> (r: Vec<u32>)
    ensures
        r@ == scene_buffers::words_of(
            instance_views(v@),
            |i: GpuInstanceView| instance_words(i),
        ),
{
    let ghost f = |i: GpuInstanceView| instance_words(i);
    let ghost all = instance_views(v@);
    let n: usize = v.len();
    let mut out: Vec<u32> = Vec::new();
    let mut k: usize = 0;
    assert(all.take(0) =~= seq![]);
    while k < n
        invariant
            k <= n == v@.len(),
            all == instance_views(v@),
            f == (|i: GpuInstanceView| instance_words(i)),
            out@ == scene_buffers::words_of(all.take(k as int), f),
        decreases n - k,
    {
        let i: &GpuInstance = &v[k];
        let ghost before = out@;
        push_words(&mut out, &i.inv);
        push_words(&mut out, &i.fwd);
        out.push(i.mesh_id);
        out.push(i.material_id);
        out.push(0);
        out.push(0);
        proof {
            assert(all.take(k + 1).drop_last() =~= all.take(k as int));
            assert(all[k as int] == i@);
            assert(out@ =~= before + instance_words(i@));
        }
        k += 1;
    }
    assert(all.take(n as int) =~= all);
    out
}

impl GpuPtScene {
    pub fn objects_bytes(&self) -> (r: Vec<u8>)
        ensures
            r@ == scene_buffers::bytes_of(scene_buffers::words_of(
                    self@.objects,
                    |o: GpuObjectView| scene_buffers::object_words(o),
                )),
    {
        let words: Vec<u32> = list_object_words(&self.objects);
        as_bytes(&words)
    }

    pub fn materials_bytes(&self) -> (r: Vec<u8>)
        ensures
            r@ == scene_buffers::bytes_of(scene_buffers::words_of(self@.materials, |m: GpuPtMaterial| pt_material_words(m))),
    {
        let words: Vec<u32> = list_material_words(&self.materials);
        as_bytes(&words)
    }

    pub fn lights_bytes(&self) -> (r: Vec<u8>)
        ensures
            r@ == scene_buffers::bytes_of(scene_buffers::words_of(self@.lights, |l: GpuPtLight| pt_light_words(l))),
    {
        let words: Vec<u32> = list_light_words(&self.lights);
        as_bytes(&words)
    }

    pub fn tlas_bytes(&self) -> (r: Vec<u8>)
        ensures
            r@ == scene_buffers::bytes_of(scene_buffers::words_of(self@.tlas_nodes, |a: GpuBvhNode| node_words(a))),
    {
        let words: Vec<u32> = list_node_words(&self.tlas_nodes);
        as_bytes(&words)
    }

    pub fn instances_bytes(&self) -> (r: Vec<u8>)
        ensures
            r@ == scene_buffers::bytes_of(scene_buffers::words_of(self@.instances, |i: GpuInstanceView| instance_words(i))),
    {
        let words: Vec<u32> = list_instance_words(&self.instances);
        as_bytes(&words)
    }

    pub fn blas_bytes(&self) -> (r: Vec<u8>)
        ensures
            r@ == scene_buffers::bytes_of(scene_buffers::words_of(self@.blas_nodes, |a: GpuBvhNode| node_words(a))),
    {
        let words: Vec<u32> = list_node_words(&self.blas_nodes);
        as_bytes(&words)
    }

    pub fn mesh_infos_bytes(&self) -> (r: Vec<u8>)
        ensures
            r@ == scene_buffers::bytes_of(scene_buffers::words_of(self@.mesh_infos, |m: GpuMeshInfo| info_words(m))),
    {
        let words: Vec<u32> = list_info_words(&self.mesh_infos);
        as_bytes(&words)
    }

    pub fn object_materials_bytes(&self) -> (r: Vec<u8>)
        ensures
            r@ == scene_buffers::bytes_of(self@.object_materials),
    {
        as_bytes(&self.object_materials)
    }

    pub fn tri_indices_bytes(&self) -> (r: Vec<u8>)
        ensures
            r@ == scene_buffers::bytes_of(self@.tri_indices),
    {
        as_bytes(&self.tri_indices)
    }

    pub fn vertices_bytes(&self) -> (r: Vec<u8>)
        ensures
            r@ == scene_buffers::bytes_of(self@.vertices),
    {
        as_bytes(&self.vertices)
    }

    pub fn normals_bytes(&self) -> (r: Vec<u8>)
        ensures
            r@ == scene_buffers::bytes_of(self@.normals),
    {
        as_bytes(&self.normals)
    }

    pub fn env_pixels_bytes(&self) -> (r: Vec<u8>)
        ensures
            r@ == scene_buffers::bytes_of(self@.env_pixels),
    {
        as_bytes(&self.env_pixels)
    }

    pub fn env_marginal_bytes(&self) -> (r: Vec<u8>)
        ensures
            r@ == scene_buffers::bytes_of(self@.env_marginal),
    {
        as_bytes(&self.env_marginal)
    }

    pub fn env_conditional_bytes(&self) -> (r: Vec<u8>)
        ensures
            r@ == scene_buffers::bytes_of(self@.env_conditional),
    {
        as_bytes(&self.env_conditional)
    }
}

// ---- laws ------------------------------------------------------------------

/// The kernel finds each mesh where its info says: its nodes, the triangles of its
/// hierarchy's slots, and its vertices.
pub proof fn mesh_stands_at_its_offsets(meshes: Seq<MeshValues>, m: int)
    requires
        0 <= m < meshes.len(),
        joined_meshes(meshes).nodes.len() <= u32::MAX,
        joined_meshes(meshes).indices.len() <= u32::MAX,
        joined_meshes(meshes).vertices.len() <= u32::MAX,
    ensures
        ({
            let b = joined_meshes(meshes);
            let info = b.infos[m];
            let own = packed_nodes(meshes[m].blas@);
            let tris = leaf_triangles(meshes[m].blas@.order, meshes[m].indices@);
            let points = components(meshes[m].positions@);
            &&& b.infos.len() == meshes.len()
            &&& b.vertices.len() % 3 == 0
            &&& info.node_offset + own.len() <= b.nodes.len()
            &&& b.nodes.subrange(info.node_offset as int, info.node_offset + own.len()) == own
            &&& info.index_offset + tris.len() <= b.indices.len()
            &&& b.indices.subrange(info.index_offset as int, info.index_offset + tris.len())
                == tris
            &&& 3 * info.vertex_offset + points.len() <= b.vertices.len()
            &&& b.vertices.subrange(
                3 * info.vertex_offset as int,
                3 * info.vertex_offset + points.len(),
            ) == points
        }),
    decreases meshes.len(),
{
    let before = joined_meshes(meshes.drop_last());
    let b = joined_meshes(meshes);
    vertices_are_triples(meshes.drop_last());
    vertices_are_triples(meshes);
    if m == meshes.len() - 1 {
        let own = packed_nodes(meshes[m].blas@);
        let tris = leaf_triangles(meshes[m].blas@.order, meshes[m].indices@);
        let points = components(meshes[m].positions@);
        infos_per_mesh(meshes.drop_last());
        assert(b.infos[m] == b.infos.last());
        assert(b.nodes.subrange(
            before.nodes.len() as int,
            (before.nodes.len() + own.len()) as int,
        ) =~= own);
        assert(b.indices.subrange(
            before.indices.len() as int,
            (before.indices.len() + tris.len()) as int,
        ) =~= tris);
        assert(b.vertices.subrange(
            before.vertices.len() as int,
            (before.vertices.len() + points.len()) as int,
        ) =~= points);
    } else {
        mesh_stands_at_its_offsets(meshes.drop_last(), m);
        assert(meshes.drop_last()[m] == meshes[m]);
        let info = before.infos[m];
        let own = packed_nodes(meshes[m].blas@);
        let tris = leaf_triangles(meshes[m].blas@.order, meshes[m].indices@);
        let points = components(meshes[m].positions@);
        assert(b.infos[m] == info);
        assert(b.nodes.subrange(info.node_offset as int, info.node_offset + own.len())
            =~= before.nodes.subrange(info.node_offset as int, info.node_offset + own.len()));
        assert(b.indices.subrange(info.index_offset as int, info.index_offset + tris.len())
            =~= before.indices.subrange(info.index_offset as int, info.index_offset + tris.len()));
        assert(b.vertices.subrange(
            3 * info.vertex_offset as int,
            3 * info.vertex_offset + points.len(),
        ) =~= before.vertices.subrange(
            3 * info.vertex_offset as int,
            3 * info.vertex_offset + points.len(),
        ));
    }
}

proof fn vertices_are_triples(meshes: Seq<MeshValues>)
    ensures
        joined_meshes(meshes).vertices.len() % 3 == 0,
        joined_meshes(meshes).infos.len() == meshes.len(),
    decreases meshes.len(),
{
    if meshes.len() > 0 {
        vertices_are_triples(meshes.drop_last());
    }
}

proof fn infos_per_mesh(meshes: Seq<MeshValues>)
    ensures
        joined_meshes(meshes).infos.len() == meshes.len(),
{
    vertices_are_triples(meshes);
}

} // verus!
