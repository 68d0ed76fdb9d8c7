//! The contents of a DXF file, as far as drawing it needs them.
//!
//! Coordinates are as the file has them, with y pointing up and angles running
//! counterclockwise.

use vstd::prelude::*;

use crate::number::Real;

verus! {

/// An indexed color, as the `dxf` crate reads it.
#[verifier::external_type_specification]
#[verifier::external_body]
pub struct ExColor(dxf::Color);

/// A line weight, as the `dxf` crate reads it.
#[verifier::external_type_specification]
#[verifier::external_body]
pub struct ExLineWeight(dxf::LineWeight);

/// Where an `MTEXT` hangs on its insertion point, as the `dxf` crate reads it.
#[verifier::external_type_specification]
#[verifier::external_body]
pub struct ExAttachmentPoint(dxf::enums::AttachmentPoint);

/// A point or vector in the file.
#[derive(Debug, Clone, Copy, PartialEq, Eq, Structural)]
pub struct DxfPoint {
    pub x: Real,
    pub y: Real,
    pub z: Real,
}

/// What every entity has.
#[derive(Debug)]
pub struct EntityCommon {
    /// Handle; zero where the file gives none.
    pub handle: u64,
    /// Name of the layer.
    pub layer: String,
    pub is_visible: bool,
    /// Line weight in hundredths of a millimeter, or a negative enumeration value.
    pub lineweight_enum_value: i16,
    pub color: dxf::Color,
    pub color_24_bit: i32,
    pub transparency: i32,
}

/// `ARC`, with angles in degrees.
#[derive(Debug, Clone, Copy)]
pub struct Arc {
    pub center: DxfPoint,
    pub radius: Real,
    pub normal: DxfPoint,
    pub start_angle: Real,
    pub end_angle: Real,
}

/// `LINE`.
#[derive(Debug, Clone, Copy)]
pub struct Line {
    pub p1: DxfPoint,
    pub p2: DxfPoint,
    pub extrusion_direction: DxfPoint,
}

/// `CIRCLE`.
#[derive(Debug, Clone, Copy)]
pub struct Circle {
    pub center: DxfPoint,
    pub radius: Real,
    pub normal: DxfPoint,
}

/// `ELLIPSE`, with parameters in radians.
#[derive(Debug, Clone, Copy)]
pub struct Ellipse {
    pub center: DxfPoint,
    pub major_axis: DxfPoint,
    pub normal: DxfPoint,
    pub minor_axis_ratio: Real,
    pub start_parameter: Real,
    pub end_parameter: Real,
}

/// A vertex of a polyline, with the bulge of the segment that it starts.
#[derive(Debug, Clone, Copy)]
pub struct PolylineVertex {
    pub x: Real,
    pub y: Real,
    pub bulge: Real,
}

/// `LWPOLYLINE`.
#[derive(Debug, Clone)]
pub struct LwPolyline {
    pub extrusion_direction: DxfPoint,
    pub vertices: Vec<PolylineVertex>,
    pub is_closed: bool,
}

/// `POLYLINE`.
#[derive(Debug, Clone)]
pub struct Polyline {
    pub normal: DxfPoint,
    pub is_polyface_mesh: bool,
    pub is_3d_polygon_mesh: bool,
    pub vertices: Vec<PolylineVertex>,
    pub is_closed: bool,
}

/// `SPLINE`.
#[derive(Debug, Clone)]
pub struct Spline {
    pub normal: DxfPoint,
    pub degree_of_curve: i32,
    pub control_points: Vec<DxfPoint>,
    pub knot_values: Vec<Real>,
    pub is_closed: bool,
}

/// `SOLID`.
#[derive(Debug, Clone, Copy)]
pub struct Solid {
    pub first_corner: DxfPoint,
    pub second_corner: DxfPoint,
    pub third_corner: DxfPoint,
    pub fourth_corner: DxfPoint,
    pub extrusion_direction: DxfPoint,
}

/// `INSERT`, with the rotation in degrees.
#[derive(Debug, Clone)]
pub struct Insert {
    /// Name of the block.
    pub name: String,
    pub location: DxfPoint,
    pub x_scale_factor: Real,
    pub y_scale_factor: Real,
    pub rotation: Real,
    pub row_count: i16,
    pub column_count: i16,
    pub row_spacing: Real,
    pub column_spacing: Real,
    pub extrusion_direction: DxfPoint,
}

/// `MTEXT`, with the rotation in degrees.
#[derive(Debug)]
pub struct MText {
    pub insertion_point: DxfPoint,
    pub initial_text_height: Real,
    pub reference_rectangle_width: Real,
    pub attachment_point: dxf::enums::AttachmentPoint,
    pub text: String,
    pub extended_text: Vec<String>,
    pub text_style_name: String,
    pub extrusion_direction: DxfPoint,
    pub x_axis_direction: DxfPoint,
    pub rotation_angle: Real,
    pub column_type: i16,
    pub column_width: Real,
}

/// `TEXT`, with the rotation in degrees.
#[derive(Debug, Clone)]
pub struct Text {
    pub location: DxfPoint,
    pub text_height: Real,
    pub value: String,
    pub rotation: Real,
    pub oblique_angle: Real,
    pub text_style_name: String,
    pub normal: DxfPoint,
}

/// What an entity is. The kinds that are never drawn carry no data.
#[derive(Debug)]
pub enum EntityType {
    Face3D,
    Solid3D,
    ProxyEntity,
    Arc(Arc),
    ArcAlignedText,
    AttributeDefinition,
    Attribute,
    Body,
    Circle(Circle),
    RotatedDimension,
    RadialDimension,
    DiameterDimension,
    AngularThreePointDimension,
    OrdinateDimension,
    Ellipse(Ellipse),
    Helix,
    Image,
    Insert(Insert),
    Leader,
    Light,
    Line(Line),
    LwPolyline(LwPolyline),
    MLine,
    MText(MText),
    OleFrame,
    Ole2Frame,
    ModelPoint,
    Polyline(Polyline),
    Ray,
    Region,
    RText,
    Section,
    Seqend,
    Shape,
    Solid(Solid),
    Spline(Spline),
    Text(Text),
    Tolerance,
    Trace,
    DgnUnderlay,
    DwfUnderlay,
    PdfUnderlay,
    Vertex,
    Wipeout,
    XLine,
}

/// An entity of the drawing or of a block.
#[derive(Debug)]
pub struct DxfEntity {
    pub common: EntityCommon,
    pub specific: EntityType,
    /// Whether the circular pieces of the entity's path flatten to nothing, as an arc
    /// that sweeps no angle does. Of no meaning for an entity without such pieces.
    pub arcs_vanish: bool,
}

/// A block: entities that can be inserted together.
#[derive(Debug)]
pub struct Block {
    pub name: String,
    pub entities: Vec<DxfEntity>,
}

/// A layer.
#[derive(Debug)]
pub struct Layer {
    pub name: String,
    /// Handle; zero where the file gives none.
    pub handle: u64,
    pub is_layer_on: bool,
    pub color: dxf::Color,
    pub line_weight: dxf::LineWeight,
}

/// A text style.
#[derive(Debug, Clone)]
pub struct Style {
    pub name: String,
    pub text_height: Real,
    pub width_factor: Real,
    pub oblique_angle: Real,
    pub primary_font_file_name: String,
}

/// A drawing as it was read from a file.
#[derive(Debug)]
pub struct DxfDrawing {
    pub layers: Vec<Layer>,
    pub styles: Vec<Style>,
    pub blocks: Vec<Block>,
    pub entities: Vec<DxfEntity>,
    /// Handles of application ids, blocks, block records and dimension styles, which
    /// hide an entity with the same handle.
    pub other_handles: Vec<u64>,
}

/// The name of an entity type.
pub open spec fn entity_type_name(entity_type: EntityType) -> Seq<char> {
    match entity_type {
        EntityType::Face3D => "Face3D"@,
        EntityType::Solid3D => "Solid3D"@,
        EntityType::ProxyEntity => "ProxyEntity"@,
        EntityType::Arc(_) => "Arc"@,
        EntityType::ArcAlignedText => "ArcAlignedText"@,
        EntityType::AttributeDefinition => "AttributeDefinition"@,
        EntityType::Attribute => "Attribute"@,
        EntityType::Body => "Body"@,
        EntityType::Circle(_) => "Circle"@,
        EntityType::RotatedDimension => "RotatedDimension"@,
        EntityType::RadialDimension => "RadialDimension"@,
        EntityType::DiameterDimension => "DiameterDimension"@,
        EntityType::AngularThreePointDimension => "AngularThreePointDimension"@,
        EntityType::OrdinateDimension => "OrdinateDimension"@,
        EntityType::Ellipse(_) => "Ellipse"@,
        EntityType::Helix => "Helix"@,
        EntityType::Image => "Image"@,
        EntityType::Insert(_) => "Insert"@,
        EntityType::Leader => "Leader"@,
        EntityType::Light => "Light"@,
        EntityType::Line(_) => "Line"@,
        EntityType::LwPolyline(_) => "LwPolyline"@,
        EntityType::MLine => "MLine"@,
        EntityType::MText(_) => "MText"@,
        EntityType::OleFrame => "OleFrame"@,
        EntityType::Ole2Frame => "Ole2Frame"@,
        EntityType::ModelPoint => "ModelPoint"@,
        EntityType::Polyline(_) => "Polyline"@,
        EntityType::Ray => "Ray"@,
        EntityType::Region => "Region"@,
        EntityType::RText => "RText"@,
        EntityType::Section => "Section"@,
        EntityType::Seqend => "Seqend"@,
        EntityType::Shape => "Shape"@,
        EntityType::Solid(_) => "Solid"@,
        EntityType::Spline(_) => "Spline"@,
        EntityType::Text(_) => "Text"@,
        EntityType::Tolerance => "Tolerance"@,
        EntityType::Trace => "Trace"@,
        EntityType::DgnUnderlay => "DgnUnderlay"@,
        EntityType::DwfUnderlay => "DwfUnderlay"@,
        EntityType::PdfUnderlay => "PdfUnderlay"@,
        EntityType::Vertex => "Vertex"@,
        EntityType::Wipeout => "Wipeout"@,
        EntityType::XLine => "XLine"@,
    }
}

/// Get the type name of a DXF `EntityType`.
pub fn dxf_entity_type_name(entity_type: &EntityType) -> (name: &'static str)
    ensures
        name@ == entity_type_name(*entity_type),
{
    match entity_type {
        EntityType::Face3D => "Face3D",
        EntityType::Solid3D => "Solid3D",
        EntityType::ProxyEntity => "ProxyEntity",
        EntityType::Arc(_) => "Arc",
        EntityType::ArcAlignedText => "ArcAlignedText",
        EntityType::AttributeDefinition => "AttributeDefinition",
        EntityType::Attribute => "Attribute",
        EntityType::Body => "Body",
        EntityType::Circle(_) => "Circle",
        EntityType::RotatedDimension => "RotatedDimension",
        EntityType::RadialDimension => "RadialDimension",
        EntityType::DiameterDimension => "DiameterDimension",
        EntityType::AngularThreePointDimension => "AngularThreePointDimension",
        EntityType::OrdinateDimension => "OrdinateDimension",
        EntityType::Ellipse(_) => "Ellipse",
        EntityType::Helix => "Helix",
        EntityType::Image => "Image",
        EntityType::Insert(_) => "Insert",
        EntityType::Leader => "Leader",
        EntityType::Light => "Light",
        EntityType::Line(_) => "Line",
        EntityType::LwPolyline(_) => "LwPolyline",
        EntityType::MLine => "MLine",
        EntityType::MText(_) => "MText",
        EntityType::OleFrame => "OleFrame",
        EntityType::Ole2Frame => "Ole2Frame",
        EntityType::ModelPoint => "ModelPoint",
        EntityType::Polyline(_) => "Polyline",
        EntityType::Ray => "Ray",
        EntityType::Region => "Region",
        EntityType::RText => "RText",
        EntityType::Section => "Section",
        EntityType::Seqend => "Seqend",
        EntityType::Shape => "Shape",
        EntityType::Solid(_) => "Solid",
        EntityType::Spline(_) => "Spline",
        EntityType::Text(_) => "Text",
        EntityType::Tolerance => "Tolerance",
        EntityType::Trace => "Trace",
        EntityType::DgnUnderlay => "DgnUnderlay",
        EntityType::DwfUnderlay => "DwfUnderlay",
        EntityType::PdfUnderlay => "PdfUnderlay",
        EntityType::Vertex => "Vertex",
        EntityType::Wipeout => "Wipeout",
        EntityType::XLine => "XLine",
    }
}

} // verus!
