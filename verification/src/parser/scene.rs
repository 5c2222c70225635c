//! The scene as its requests describe it: every object with its numbers by their
//! bits, every transform as the chain of requests that made it. What needs
//! arithmetic on those numbers is left to whoever evaluates the description.

use crate::geometry::mesh;
use crate::geometry::mesh::PolygonMesh;
use crate::geometry::patches::BasisUse;
use crate::geometry::subdiv;
use crate::geometry::subdiv::SubdivCage;
use crate::math::Vec3;
use crate::parser::requests;
use crate::parser::requests::{NuPatchDef, Particle, PatchMeshDef, Strands};
use vstd::prelude::*;

verus! {

/// One transform request. A matrix stands in the first value of its request.
#[derive(Clone, Copy, Debug, PartialEq, Eq, Structural)]
pub enum TransformOp {
    /// Replaces what came before.
    Replace { request: usize },
    Concat { request: usize },
    Translate { by: Vec3 },
    Rotate { angle: u64, axis: Vec3 },
    Scale { by: Vec3 },
}

/// A transform: the identity, or a node of the transform tree.
#[derive(Clone, Copy, Debug, PartialEq, Eq, Structural)]
pub struct Transform {
    pub node: Option<usize>,
}

/// A transform made from another by one more operation (multiplied on its right).
#[derive(Clone, Copy, Debug, PartialEq, Eq, Structural)]
pub struct TransformNode {
    pub parent: Transform,
    pub op: TransformOp,
}

#[derive(Clone, Copy, Debug, PartialEq, Eq, Structural)]
pub enum Projection {
    Perspective,
    Orthographic,
}

/// The pixel filter: the box of width 1, or the one that a request names.
#[derive(Clone, Copy, Debug, PartialEq, Eq, Structural)]
pub struct PixelFilter {
    pub request: Option<usize>,
    pub x_width: u64,
    pub y_width: u64,
}

#[derive(Clone, Copy, Debug, PartialEq, Eq, Structural)]
pub struct DepthOfField {
    pub fstop: u64,
    pub focal_length: u64,
    pub focal_distance: u64,
}

#[derive(Clone, Copy, Debug, PartialEq, Eq, Structural)]
pub struct ScreenWindow {
    pub left: u64,
    pub right: u64,
    pub bottom: u64,
    pub top: u64,
}

/// Camera and image options.
#[derive(Clone, Copy, Debug, PartialEq, Eq, Structural)]
pub struct Options {
    pub width: u32,
    pub height: u32,
    pub fov: u64,
    pub projection: Projection,
    pub depth_of_field: Option<DepthOfField>,
    pub pixel_filter: PixelFilter,
    pub shutter_open: u64,
    pub shutter_close: u64,
    pub screen_window: Option<ScreenWindow>,
    pub samples_x: u32,
    pub samples_y: u32,
    pub background: Vec3,
}

/// A classic surface shader.
#[derive(Clone, Copy, Debug, PartialEq, Eq, Structural)]
pub enum Surface {
    Matte,
    Plastic,
    Metal,
}

/// Emission of geometry in the current attribute block.
#[derive(Clone, Copy, Debug, PartialEq, Eq, Structural)]
pub struct AreaLight {
    pub intensity: u64,
    pub color: Vec3,
}

/// Parameters of the built-in noise displacement.
#[derive(Clone, Copy, Debug, PartialEq, Eq, Structural)]
pub struct DisplaceParams {
    pub amplitude: u64,
    pub frequency: u64,
    pub octaves: u32,
    pub gain: u64,
    pub lacunarity: u64,
    pub offset: Vec3,
}

/// Transforms at shutter open and close.
#[derive(Clone, Copy, Debug, PartialEq, Eq, Structural)]
pub struct Motion {
    pub open: Transform,
    pub close: Transform,
}

/// Attribute state saved and restored by attribute blocks.
#[derive(Clone, Copy, Debug, PartialEq, Eq, Structural)]
pub struct GraphicsState {
    pub color: Vec3,
    pub opacity: Vec3,
    pub surface: Surface,
    pub roughness: u64,
    pub reverse_orientation: bool,
    pub sides: u32,
    pub shading_rate: u64,
    pub area_light: Option<AreaLight>,
    /// Modern material; overrides the surface shader.
    pub bxdf: Option<usize>,
    pub displace: Option<DisplaceParams>,
    pub motion: Option<Motion>,
    /// The request of a hair material; overrides every other.
    pub hair: Option<usize>,
    /// Medium inside the geometry.
    pub interior: Option<u32>,
    /// The request that names the geometry.
    pub identifier: Option<usize>,
    pub basis_u: BasisUse,
    pub basis_v: BasisUse,
}

/// Where a material takes its reflection from.
#[derive(Clone, Copy, Debug, PartialEq, Eq, Structural)]
pub enum MaterialBase {
    /// The hair parameters of this request.
    Hair { request: usize },
    /// A modern material, by its index.
    Bxdf { bxdf: usize },
    Surface { surface: Surface, color: Vec3, roughness: u64 },
    /// Reflects nothing: the visible body of the light of this request.
    Emitter { request: usize },
}

#[derive(Clone, Copy, Debug, PartialEq, Eq, Structural)]
pub struct Material {
    pub base: MaterialBase,
    pub emission: Option<AreaLight>,
    /// The light that samples this geometry.
    pub area_light: Option<usize>,
    pub interior: Option<u32>,
    /// Object id, 0 for none.
    pub id: u32,
}

/// A modern material: its request, and the patterns bound to its parameters as
/// (bindable parameter, pattern) pairs.
#[derive(Debug)]
pub struct Bxdf {
    pub request: usize,
    pub bindings: Vec<(usize, u32)>,
}

/// What a modern material is.
pub struct BxdfView {
    pub request: usize,
    pub bindings: Seq<(usize, u32)>,
}

impl View for Bxdf {
    type V = BxdfView;

    open spec fn view(&self) -> BxdfView {
        BxdfView { request: self.request, bindings: self.bindings@ }
    }
}

/// A primitive that is intersected directly.
#[derive(Clone, Copy, Debug, PartialEq, Eq, Structural)]
pub enum PrimitiveKind {
    Sphere { radius: u64, zmin: u64, zmax: u64, thetamax: u64 },
    Cylinder { radius: u64, zmin: u64, zmax: u64, thetamax: u64 },
    Cone { height: u64, radius: u64, thetamax: u64 },
    Torus { major_radius: u64, minor_radius: u64, phimin: u64, phimax: u64, thetamax: u64 },
    Disk { height: u64, radius: u64, thetamax: u64 },
    Paraboloid { rmax: u64, zmin: u64, zmax: u64, thetamax: u64 },
    Hyperboloid { p1: Vec3, p2: Vec3, thetamax: u64 },
    Triangle { v0: Vec3, v1: Vec3, v2: Vec3 },
}

/// A placed primitive.
#[derive(Clone, Copy, Debug, PartialEq, Eq, Structural)]
pub struct PrimitiveDesc {
    pub kind: PrimitiveKind,
    pub material_id: usize,
    pub transform: Transform,
}

/// Geometry that is diced into a mesh.
#[derive(Debug)]
pub enum MeshSource {
    Polygons(PolygonMesh),
    /// A cage and how many times it is subdivided.
    Subdivision(SubdivCage, u32),
    Patch(PatchMeshDef),
    Nurbs(NuPatchDef),
    /// The loops of a general polygon.
    Loops(Vec<Vec<Vec3>>),
}

/// What the source of a mesh is.
pub enum MeshSourceView {
    Polygons(mesh::PolygonMeshView),
    Subdivision(subdiv::CageView, u32),
    Patch(requests::PatchView),
    Nurbs(requests::NuPatchView),
    Loops(Seq<Seq<Vec3>>),
}

impl View for MeshSource {
    type V = MeshSourceView;

    open spec fn view(&self) -> MeshSourceView {
        match *self {
            MeshSource::Polygons(m) => MeshSourceView::Polygons(m@),
            MeshSource::Subdivision(c, n) => MeshSourceView::Subdivision(c@, n),
            MeshSource::Patch(p) => MeshSourceView::Patch(p@),
            MeshSource::Nurbs(p) => MeshSourceView::Nurbs(p@),
            MeshSource::Loops(l) => MeshSourceView::Loops(requests::chain_views(l@)),
        }
    }
}

/// A mesh: its source, how finely it is diced and how it is displaced.
#[derive(Debug)]
pub struct Mesh {
    pub source: MeshSource,
    pub shading_rate: u64,
    pub displace: Option<DisplaceParams>,
}

/// What a mesh is.
pub struct MeshView {
    pub source: MeshSourceView,
    pub shading_rate: u64,
    pub displace: Option<DisplaceParams>,
}

impl View for Mesh {
    type V = MeshView;

    open spec fn view(&self) -> MeshView {
        MeshView {
            source: self.source@,
            shading_rate: self.shading_rate,
            displace: self.displace,
        }
    }
}

/// Curves or particles.
#[derive(Debug)]
pub enum CurveSource {
    Strands(Strands, BasisUse),
    Particles(Vec<Particle>),
}

/// What curves or particles are.
pub enum CurveSourceView {
    Strands(requests::StrandsView, BasisUse),
    Particles(Seq<Particle>),
}

/// A set of curves: its source and how finely it is diced.
#[derive(Debug)]
pub struct CurveSet {
    pub source: CurveSource,
    pub shading_rate: u64,
}

/// What a set of curves is.
pub struct CurveSetView {
    pub source: CurveSourceView,
    pub shading_rate: u64,
}

impl View for CurveSource {
    type V = CurveSourceView;

    open spec fn view(&self) -> CurveSourceView {
        match *self {
            CurveSource::Strands(s, b) => CurveSourceView::Strands(s@, b),
            CurveSource::Particles(p) => CurveSourceView::Particles(p@),
        }
    }
}

impl View for CurveSet {
    type V = CurveSetView;

    open spec fn view(&self) -> CurveSetView {
        CurveSetView { source: self.source@, shading_rate: self.shading_rate }
    }
}

/// What an instance places: a mesh or a set of curves, by its index.
#[derive(Clone, Copy, Debug, PartialEq, Eq, Structural)]
pub enum GeomKind {
    Mesh(usize),
    Curves(usize),
}

/// Placed geometry. `local` is its transform inside an object definition.
#[derive(Clone, Copy, Debug, PartialEq, Eq, Structural)]
pub struct Instance {
    pub geometry: GeomKind,
    pub material_id: usize,
    pub placement: Transform,
    pub local: Option<Transform>,
    pub motion: Option<Motion>,
}

/// Strength of a modern light: `intensity * 2^exposure`, and its colour.
#[derive(Clone, Copy, Debug, PartialEq, Eq, Structural)]
pub struct LightScale {
    pub intensity: u64,
    pub exposure: u64,
    pub color: Vec3,
}

#[derive(Clone, Copy, Debug, PartialEq, Eq, Structural)]
pub enum Light {
    Point { from: Vec3, intensity: u64 },
    Distant { from: Vec3, to: Vec3, intensity: u64 },
    /// A quadrilateral polygon: a corner and the ends of its two edges.
    Quad { corner: Vec3, end1: Vec3, end2: Vec3, transform: Transform, light: AreaLight },
    /// The unit square, sphere and disk of light space.
    Rect { transform: Transform, scale: LightScale },
    Sphere { transform: Transform, scale: LightScale },
    Disk { transform: Transform, scale: LightScale },
    /// Along the negative z axis of light space, with this angle of extent.
    Sun { transform: Transform, scale: LightScale, angle: u64 },
    /// Surrounds the scene; its request may name a map.
    Dome { request: usize, scale: LightScale },
}

/// Density of a cloud.
#[derive(Clone, Copy, Debug, PartialEq, Eq, Structural)]
pub struct DensityField {
    pub params: DisplaceParams,
    pub coverage: u64,
    pub sharpness: u64,
}

/// A participating medium.
#[derive(Clone, Copy, Debug, PartialEq, Eq, Structural)]
pub struct Medium {
    pub sigma_a: Vec3,
    pub sigma_s: Vec3,
    pub g: u64,
    pub density: Option<DensityField>,
    pub emission: Vec3,
    pub max_distance: u64,
}

/// An input of a pattern: a constant, or an earlier pattern.
#[derive(Clone, Copy, Debug, PartialEq, Eq, Structural)]
pub enum PInput {
    Const(Vec3),
    Node(u32),
}

/// How a texture continues beyond its edge.
#[derive(Clone, Copy, Debug, PartialEq, Eq, Structural)]
pub enum Wrap {
    Periodic,
    Clamp,
    Black,
}

/// A node of the pattern graph. Textures and ramps hold the request that names
/// their file, or their positions and colours.
#[derive(Clone, Copy, Debug, PartialEq, Eq, Structural)]
pub enum PatternNode {
    Texture { request: usize, named: bool, wrap: Wrap, scale_s: u64, scale_t: u64 },
    Checker { color_a: Vec3, color_b: Vec3, scale_s: u64, scale_t: u64 },
    Fractal { frequency: u64, octaves: u32, gain: u64, lacunarity: u64 },
    Mix { color1: PInput, color2: PInput, mix: PInput },
    ColorCorrect { input: PInput, gain: Vec3, offset: Vec3, gamma: u64, saturation: u64 },
    Ramp { request: usize, use_t: bool },
    Triplanar { request: usize, named: bool, wrap: Wrap, frequency: u64 },
}

/// One placed mesh recorded inside an object definition: its transform relative
/// to the block's start, and the material captured at definition time (shared by
/// every instance of the definition).
#[derive(Clone, Copy, Debug, PartialEq, Eq, Structural)]
pub struct ObjectDefEntry {
    pub mesh: usize,
    pub local: Transform,
    pub material_id: usize,
}

} // verus!
