//! Request names.

use crate::text;
use vstd::prelude::*;
use vstd::string::*;

verus! {

/// What a request's name asks for.
#[derive(Clone, Copy, Debug, PartialEq, Eq, Structural)]
pub enum RequestKind {
    /// Accepted without effect.
    Ignored,
    AttributeBegin,
    AttributeEnd,
    TransformBegin,
    TransformEnd,
    MotionBegin,
    MotionEnd,
    ArchiveBegin,
    ArchiveEnd,
    ReadArchive,
    Interior,
    Atmosphere,
    Exterior,
    Procedural,
    ObjectBegin,
    ObjectEnd,
    ObjectInstance,
    Format,
    Projection,
    DepthOfField,
    Shutter,
    PixelFilter,
    ScreenWindow,
    PixelSamples,
    /// Kept for later; nothing is rendered differently.
    Recorded,
    Options,
    Attribute,
    Basis,
    Identity,
    Transform,
    ConcatTransform,
    Translate,
    Rotate,
    Scale,
    CoordinateSystem,
    Color,
    Opacity,
    Surface,
    Orientation,
    ReverseOrientation,
    Sides,
    ShadingRate,
    LightSource,
    Bxdf,
    Pattern,
    Light,
    AreaLightSource,
    Curves,
    Points,
    PointsPolygons,
    PointsGeneralPolygons,
    SubdivisionMesh,
    HierarchicalSubdivisionMesh,
    PatchMesh,
    NuPatch,
    GeneralPolygon,
    Displace,
    Sphere,
    Cylinder,
    Cone,
    Torus,
    Disk,
    Paraboloid,
    Hyperboloid,
    Polygon,
    Unknown,
}

/// The kind of a structure request of that name.
pub open spec fn structure_kind(name: Seq<char>) -> Option<RequestKind> {
    if name == "version"@ || name == "WorldBegin"@ || name == "WorldEnd"@ || name == "FrameBegin"@ || name == "FrameEnd"@ || name == "IfBegin"@ || name == "ElseIf"@ || name == "Else"@ || name == "IfEnd"@ {
        Some(RequestKind::Ignored)
    } else if name == "AttributeBegin"@ {
        Some(RequestKind::AttributeBegin)
    } else if name == "AttributeEnd"@ {
        Some(RequestKind::AttributeEnd)
    } else if name == "TransformBegin"@ {
        Some(RequestKind::TransformBegin)
    } else if name == "TransformEnd"@ {
        Some(RequestKind::TransformEnd)
    } else if name == "MotionBegin"@ {
        Some(RequestKind::MotionBegin)
    } else if name == "MotionEnd"@ {
        Some(RequestKind::MotionEnd)
    } else if name == "ArchiveBegin"@ {
        Some(RequestKind::ArchiveBegin)
    } else if name == "ArchiveEnd"@ {
        Some(RequestKind::ArchiveEnd)
    } else if name == "ReadArchive"@ {
        Some(RequestKind::ReadArchive)
    } else if name == "Interior"@ {
        Some(RequestKind::Interior)
    } else if name == "Atmosphere"@ {
        Some(RequestKind::Atmosphere)
    } else if name == "Exterior"@ {
        Some(RequestKind::Exterior)
    } else if name == "Procedural"@ {
        Some(RequestKind::Procedural)
    } else if name == "ObjectBegin"@ {
        Some(RequestKind::ObjectBegin)
    } else if name == "ObjectEnd"@ {
        Some(RequestKind::ObjectEnd)
    } else if name == "ObjectInstance"@ {
        Some(RequestKind::ObjectInstance)
    } else {
        None
    }
}

/// The kind of a option request of that name.
pub open spec fn option_kind(name: Seq<char>) -> Option<RequestKind> {
    if name == "Format"@ {
        Some(RequestKind::Format)
    } else if name == "Projection"@ {
        Some(RequestKind::Projection)
    } else if name == "DepthOfField"@ {
        Some(RequestKind::DepthOfField)
    } else if name == "Shutter"@ {
        Some(RequestKind::Shutter)
    } else if name == "PixelFilter"@ {
        Some(RequestKind::PixelFilter)
    } else if name == "ScreenWindow"@ {
        Some(RequestKind::ScreenWindow)
    } else if name == "PixelSamples"@ {
        Some(RequestKind::PixelSamples)
    } else if name == "Declare"@ || name == "Display"@ || name == "Clipping"@ || name == "ClippingPlane"@ || name == "CropWindow"@ || name == "FrameAspectRatio"@ || name == "PixelVariance"@ || name == "Exposure"@ || name == "Quantize"@ || name == "Hider"@ || name == "Integrator"@ || name == "TextureCoordinates"@ || name == "ShadingInterpolation"@ || name == "RelativeDetail"@ {
        Some(RequestKind::Recorded)
    } else if name == "Option"@ {
        Some(RequestKind::Options)
    } else if name == "Attribute"@ {
        Some(RequestKind::Attribute)
    } else if name == "Basis"@ {
        Some(RequestKind::Basis)
    } else {
        None
    }
}

/// The kind of a attribute request of that name.
pub open spec fn attribute_kind(name: Seq<char>) -> Option<RequestKind> {
    if name == "Identity"@ {
        Some(RequestKind::Identity)
    } else if name == "Transform"@ {
        Some(RequestKind::Transform)
    } else if name == "ConcatTransform"@ {
        Some(RequestKind::ConcatTransform)
    } else if name == "Translate"@ {
        Some(RequestKind::Translate)
    } else if name == "Rotate"@ {
        Some(RequestKind::Rotate)
    } else if name == "Scale"@ {
        Some(RequestKind::Scale)
    } else if name == "CoordinateSystem"@ || name == "ScopedCoordinateSystem"@ {
        Some(RequestKind::CoordinateSystem)
    } else if name == "Color"@ {
        Some(RequestKind::Color)
    } else if name == "Opacity"@ {
        Some(RequestKind::Opacity)
    } else if name == "Surface"@ {
        Some(RequestKind::Surface)
    } else if name == "Orientation"@ {
        Some(RequestKind::Orientation)
    } else if name == "ReverseOrientation"@ {
        Some(RequestKind::ReverseOrientation)
    } else if name == "Sides"@ {
        Some(RequestKind::Sides)
    } else if name == "ShadingRate"@ {
        Some(RequestKind::ShadingRate)
    } else if name == "LightSource"@ {
        Some(RequestKind::LightSource)
    } else if name == "Bxdf"@ {
        Some(RequestKind::Bxdf)
    } else if name == "Pattern"@ {
        Some(RequestKind::Pattern)
    } else if name == "Light"@ {
        Some(RequestKind::Light)
    } else if name == "AreaLightSource"@ {
        Some(RequestKind::AreaLightSource)
    } else {
        None
    }
}

/// The kind of a geometry request of that name.
pub open spec fn geometry_kind(name: Seq<char>) -> Option<RequestKind> {
    if name == "Curves"@ {
        Some(RequestKind::Curves)
    } else if name == "Points"@ {
        Some(RequestKind::Points)
    } else if name == "PointsPolygons"@ {
        Some(RequestKind::PointsPolygons)
    } else if name == "PointsGeneralPolygons"@ {
        Some(RequestKind::PointsGeneralPolygons)
    } else if name == "SubdivisionMesh"@ {
        Some(RequestKind::SubdivisionMesh)
    } else if name == "HierarchicalSubdivisionMesh"@ {
        Some(RequestKind::HierarchicalSubdivisionMesh)
    } else if name == "PatchMesh"@ || name == "Patch"@ {
        Some(RequestKind::PatchMesh)
    } else if name == "NuPatch"@ {
        Some(RequestKind::NuPatch)
    } else if name == "GeneralPolygon"@ {
        Some(RequestKind::GeneralPolygon)
    } else if name == "Displace"@ {
        Some(RequestKind::Displace)
    } else if name == "Sphere"@ {
        Some(RequestKind::Sphere)
    } else if name == "Cylinder"@ {
        Some(RequestKind::Cylinder)
    } else if name == "Cone"@ {
        Some(RequestKind::Cone)
    } else if name == "Torus"@ {
        Some(RequestKind::Torus)
    } else if name == "Disk"@ {
        Some(RequestKind::Disk)
    } else if name == "Paraboloid"@ {
        Some(RequestKind::Paraboloid)
    } else if name == "Hyperboloid"@ {
        Some(RequestKind::Hyperboloid)
    } else if name == "Polygon"@ {
        Some(RequestKind::Polygon)
    } else {
        None
    }
}

/// What a request of that name asks for.
pub open spec fn kind_of(name: Seq<char>) -> RequestKind {
    match structure_kind(name) {
        Some(k) => k,
        None => match option_kind(name) {
            Some(k) => k,
            None => match attribute_kind(name) {
                Some(k) => k,
                None => match geometry_kind(name) {
                    Some(k) => k,
                    None => RequestKind::Unknown,
                },
            },
        },
    }
}

fn structure_kind_exec(name: &str) -> (r: Option<RequestKind>)
    ensures
        r == structure_kind(name@),
{
    if text::same_text(name, "version") || text::same_text(name, "WorldBegin") || text::same_text(name, "WorldEnd") || text::same_text(name, "FrameBegin") || text::same_text(name, "FrameEnd") || text::same_text(name, "IfBegin") || text::same_text(name, "ElseIf") || text::same_text(name, "Else") || text::same_text(name, "IfEnd") {
        Some(RequestKind::Ignored)
    } else if text::same_text(name, "AttributeBegin") {
        Some(RequestKind::AttributeBegin)
    } else if text::same_text(name, "AttributeEnd") {
        Some(RequestKind::AttributeEnd)
    } else if text::same_text(name, "TransformBegin") {
        Some(RequestKind::TransformBegin)
    } else if text::same_text(name, "TransformEnd") {
        Some(RequestKind::TransformEnd)
    } else if text::same_text(name, "MotionBegin") {
        Some(RequestKind::MotionBegin)
    } else if text::same_text(name, "MotionEnd") {
        Some(RequestKind::MotionEnd)
    } else if text::same_text(name, "ArchiveBegin") {
        Some(RequestKind::ArchiveBegin)
    } else if text::same_text(name, "ArchiveEnd") {
        Some(RequestKind::ArchiveEnd)
    } else if text::same_text(name, "ReadArchive") {
        Some(RequestKind::ReadArchive)
    } else if text::same_text(name, "Interior") {
        Some(RequestKind::Interior)
    } else if text::same_text(name, "Atmosphere") {
        Some(RequestKind::Atmosphere)
    } else if text::same_text(name, "Exterior") {
        Some(RequestKind::Exterior)
    } else if text::same_text(name, "Procedural") {
        Some(RequestKind::Procedural)
    } else if text::same_text(name, "ObjectBegin") {
        Some(RequestKind::ObjectBegin)
    } else if text::same_text(name, "ObjectEnd") {
        Some(RequestKind::ObjectEnd)
    } else if text::same_text(name, "ObjectInstance") {
        Some(RequestKind::ObjectInstance)
    } else {
        None
    }
}

fn option_kind_exec(name: &str) -> (r: Option<RequestKind>)
    ensures
        r == option_kind(name@),
{
    if text::same_text(name, "Format") {
        Some(RequestKind::Format)
    } else if text::same_text(name, "Projection") {
        Some(RequestKind::Projection)
    } else if text::same_text(name, "DepthOfField") {
        Some(RequestKind::DepthOfField)
    } else if text::same_text(name, "Shutter") {
        Some(RequestKind::Shutter)
    } else if text::same_text(name, "PixelFilter") {
        Some(RequestKind::PixelFilter)
    } else if text::same_text(name, "ScreenWindow") {
        Some(RequestKind::ScreenWindow)
    } else if text::same_text(name, "PixelSamples") {
        Some(RequestKind::PixelSamples)
    } else if text::same_text(name, "Declare") || text::same_text(name, "Display") || text::same_text(name, "Clipping") || text::same_text(name, "ClippingPlane") || text::same_text(name, "CropWindow") || text::same_text(name, "FrameAspectRatio") || text::same_text(name, "PixelVariance") || text::same_text(name, "Exposure") || text::same_text(name, "Quantize") || text::same_text(name, "Hider") || text::same_text(name, "Integrator") || text::same_text(name, "TextureCoordinates") || text::same_text(name, "ShadingInterpolation") || text::same_text(name, "RelativeDetail") {
        Some(RequestKind::Recorded)
    } else if text::same_text(name, "Option") {
        Some(RequestKind::Options)
    } else if text::same_text(name, "Attribute") {
        Some(RequestKind::Attribute)
    } else if text::same_text(name, "Basis") {
        Some(RequestKind::Basis)
    } else {
        None
    }
}

fn attribute_kind_exec(name: &str) -> (r: Option<RequestKind>)
    ensures
        r == attribute_kind(name@),
{
    if text::same_text(name, "Identity") {
        Some(RequestKind::Identity)
    } else if text::same_text(name, "Transform") {
        Some(RequestKind::Transform)
    } else if text::same_text(name, "ConcatTransform") {
        Some(RequestKind::ConcatTransform)
    } else if text::same_text(name, "Translate") {
        Some(RequestKind::Translate)
    } else if text::same_text(name, "Rotate") {
        Some(RequestKind::Rotate)
    } else if text::same_text(name, "Scale") {
        Some(RequestKind::Scale)
    } else if text::same_text(name, "CoordinateSystem") || text::same_text(name, "ScopedCoordinateSystem") {
        Some(RequestKind::CoordinateSystem)
    } else if text::same_text(name, "Color") {
        Some(RequestKind::Color)
    } else if text::same_text(name, "Opacity") {
        Some(RequestKind::Opacity)
    } else if text::same_text(name, "Surface") {
        Some(RequestKind::Surface)
    } else if text::same_text(name, "Orientation") {
        Some(RequestKind::Orientation)
    } else if text::same_text(name, "ReverseOrientation") {
        Some(RequestKind::ReverseOrientation)
    } else if text::same_text(name, "Sides") {
        Some(RequestKind::Sides)
    } else if text::same_text(name, "ShadingRate") {
        Some(RequestKind::ShadingRate)
    } else if text::same_text(name, "LightSource") {
        Some(RequestKind::LightSource)
    } else if text::same_text(name, "Bxdf") {
        Some(RequestKind::Bxdf)
    } else if text::same_text(name, "Pattern") {
        Some(RequestKind::Pattern)
    } else if text::same_text(name, "Light") {
        Some(RequestKind::Light)
    } else if text::same_text(name, "AreaLightSource") {
        Some(RequestKind::AreaLightSource)
    } else {
        None
    }
}

fn geometry_kind_exec(name: &str) -> (r: Option<RequestKind>)
    ensures
        r == geometry_kind(name@),
{
    if text::same_text(name, "Curves") {
        Some(RequestKind::Curves)
    } else if text::same_text(name, "Points") {
        Some(RequestKind::Points)
    } else if text::same_text(name, "PointsPolygons") {
        Some(RequestKind::PointsPolygons)
    } else if text::same_text(name, "PointsGeneralPolygons") {
        Some(RequestKind::PointsGeneralPolygons)
    } else if text::same_text(name, "SubdivisionMesh") {
        Some(RequestKind::SubdivisionMesh)
    } else if text::same_text(name, "HierarchicalSubdivisionMesh") {
        Some(RequestKind::HierarchicalSubdivisionMesh)
    } else if text::same_text(name, "PatchMesh") || text::same_text(name, "Patch") {
        Some(RequestKind::PatchMesh)
    } else if text::same_text(name, "NuPatch") {
        Some(RequestKind::NuPatch)
    } else if text::same_text(name, "GeneralPolygon") {
        Some(RequestKind::GeneralPolygon)
    } else if text::same_text(name, "Displace") {
        Some(RequestKind::Displace)
    } else if text::same_text(name, "Sphere") {
        Some(RequestKind::Sphere)
    } else if text::same_text(name, "Cylinder") {
        Some(RequestKind::Cylinder)
    } else if text::same_text(name, "Cone") {
        Some(RequestKind::Cone)
    } else if text::same_text(name, "Torus") {
        Some(RequestKind::Torus)
    } else if text::same_text(name, "Disk") {
        Some(RequestKind::Disk)
    } else if text::same_text(name, "Paraboloid") {
        Some(RequestKind::Paraboloid)
    } else if text::same_text(name, "Hyperboloid") {
        Some(RequestKind::Hyperboloid)
    } else if text::same_text(name, "Polygon") {
        Some(RequestKind::Polygon)
    } else {
        None
    }
}

/// What a request of that name asks for.
pub fn request_kind(name: &str) -> (r: RequestKind)
    ensures
        r == kind_of(name@),
{
    if let Some(k) = structure_kind_exec(name) {
        return k;
    }
    if let Some(k) = option_kind_exec(name) {
        return k;
    }
    if let Some(k) = attribute_kind_exec(name) {
        return k;
    }
    match geometry_kind_exec(name) {
        Some(k) => k,
        None => RequestKind::Unknown,
    }
}

} // verus!
