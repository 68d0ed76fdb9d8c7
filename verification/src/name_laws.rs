//! How kinds of entities are named.

use vstd::prelude::*;

#[allow(unused_imports)]
use crate::dxf_file::{entity_type_name, EntityType};

verus! {

/// A number for the kind of an entity.
pub open spec fn kind_number(t: EntityType) -> int {
    match t {
        EntityType::Face3D => 0,
        EntityType::Solid3D => 1,
        EntityType::ProxyEntity => 2,
        EntityType::Arc(_) => 3,
        EntityType::ArcAlignedText => 4,
        EntityType::AttributeDefinition => 5,
        EntityType::Attribute => 6,
        EntityType::Body => 7,
        EntityType::Circle(_) => 8,
        EntityType::RotatedDimension => 9,
        EntityType::RadialDimension => 10,
        EntityType::DiameterDimension => 11,
        EntityType::AngularThreePointDimension => 12,
        EntityType::OrdinateDimension => 13,
        EntityType::Ellipse(_) => 14,
        EntityType::Helix => 15,
        EntityType::Image => 16,
        EntityType::Insert(_) => 17,
        EntityType::Leader => 18,
        EntityType::Light => 19,
        EntityType::Line(_) => 20,
        EntityType::LwPolyline(_) => 21,
        EntityType::MLine => 22,
        EntityType::MText(_) => 23,
        EntityType::OleFrame => 24,
        EntityType::Ole2Frame => 25,
        EntityType::ModelPoint => 26,
        EntityType::Polyline(_) => 27,
        EntityType::Ray => 28,
        EntityType::Region => 29,
        EntityType::RText => 30,
        EntityType::Section => 31,
        EntityType::Seqend => 32,
        EntityType::Shape => 33,
        EntityType::Solid(_) => 34,
        EntityType::Spline(_) => 35,
        EntityType::Text(_) => 36,
        EntityType::Tolerance => 37,
        EntityType::Trace => 38,
        EntityType::DgnUnderlay => 39,
        EntityType::DwfUnderlay => 40,
        EntityType::PdfUnderlay => 41,
        EntityType::Vertex => 42,
        EntityType::Wipeout => 43,
        EntityType::XLine => 44,
    }
}

/// What tells names apart: their length, their first, third and last character.
spec fn signature(name: Seq<char>) -> int {
    name.len() * 0x100_0000 + (name[0] as int) * 0x1_0000 + (name[name.len() - 1] as int) * 0x100
        + name[2] as int
}

/// The signature of the name of a kind.
spec fn kind_signature(t: EntityType) -> int {
    match t {
        EntityType::Face3D => 0x6464463,
        EntityType::Solid3D => 0x753446c,
        EntityType::ProxyEntity => 0xb50796f,
        EntityType::Arc(_) => 0x3416363,
        EntityType::ArcAlignedText => 0xe417463,
        EntityType::AttributeDefinition => 0x13416e74,
        EntityType::Attribute => 0x9416574,
        EntityType::Body => 0x4427964,
        EntityType::Circle(_) => 0x6436572,
        EntityType::RotatedDimension => 0x10526e74,
        EntityType::RadialDimension => 0xf526e64,
        EntityType::DiameterDimension => 0x11446e61,
        EntityType::AngularThreePointDimension => 0x1a416e67,
        EntityType::OrdinateDimension => 0x114f6e64,
        EntityType::Ellipse(_) => 0x745656c,
        EntityType::Helix => 0x548786c,
        EntityType::Image => 0x5496561,
        EntityType::Insert(_) => 0x6497473,
        EntityType::Leader => 0x64c7261,
        EntityType::Light => 0x54c7467,
        EntityType::Line(_) => 0x44c656e,
        EntityType::LwPolyline(_) => 0xa4c6550,
        EntityType::MLine => 0x54d6569,
        EntityType::MText(_) => 0x54d7465,
        EntityType::OleFrame => 0x84f6565,
        EntityType::Ole2Frame => 0x94f6565,
        EntityType::ModelPoint => 0xa4d7464,
        EntityType::Polyline(_) => 0x850656c,
        EntityType::Ray => 0x3527979,
        EntityType::Region => 0x6526e67,
        EntityType::RText => 0x5527465,
        EntityType::Section => 0x7536e63,
        EntityType::Seqend => 0x6536471,
        EntityType::Shape => 0x5536561,
        EntityType::Solid(_) => 0x553646c,
        EntityType::Spline(_) => 0x653656c,
        EntityType::Text(_) => 0x4547478,
        EntityType::Tolerance => 0x954656c,
        EntityType::Trace => 0x5546561,
        EntityType::DgnUnderlay => 0xb44796e,
        EntityType::DwfUnderlay => 0xb447966,
        EntityType::PdfUnderlay => 0xb507966,
        EntityType::Vertex => 0x6567872,
        EntityType::Wipeout => 0x7577470,
        EntityType::XLine => 0x5586569,
    }
}

proof fn lemma_signature(t: EntityType)
    ensures
        signature(entity_type_name(t)) == kind_signature(t),
{
    match t {
        EntityType::Face3D => {
            reveal_strlit("Face3D");
        },
        EntityType::Solid3D => {
            reveal_strlit("Solid3D");
        },
        EntityType::ProxyEntity => {
            reveal_strlit("ProxyEntity");
        },
        EntityType::Arc(_) => {
            reveal_strlit("Arc");
        },
        EntityType::ArcAlignedText => {
            reveal_strlit("ArcAlignedText");
        },
        EntityType::AttributeDefinition => {
            reveal_strlit("AttributeDefinition");
        },
        EntityType::Attribute => {
            reveal_strlit("Attribute");
        },
        EntityType::Body => {
            reveal_strlit("Body");
        },
        EntityType::Circle(_) => {
            reveal_strlit("Circle");
        },
        EntityType::RotatedDimension => {
            reveal_strlit("RotatedDimension");
        },
        EntityType::RadialDimension => {
            reveal_strlit("RadialDimension");
        },
        EntityType::DiameterDimension => {
            reveal_strlit("DiameterDimension");
        },
        EntityType::AngularThreePointDimension => {
            reveal_strlit("AngularThreePointDimension");
        },
        EntityType::OrdinateDimension => {
            reveal_strlit("OrdinateDimension");
        },
        EntityType::Ellipse(_) => {
            reveal_strlit("Ellipse");
        },
        EntityType::Helix => {
            reveal_strlit("Helix");
        },
        EntityType::Image => {
            reveal_strlit("Image");
        },
        EntityType::Insert(_) => {
            reveal_strlit("Insert");
        },
        EntityType::Leader => {
            reveal_strlit("Leader");
        },
        EntityType::Light => {
            reveal_strlit("Light");
        },
        EntityType::Line(_) => {
            reveal_strlit("Line");
        },
        EntityType::LwPolyline(_) => {
            reveal_strlit("LwPolyline");
        },
        EntityType::MLine => {
            reveal_strlit("MLine");
        },
        EntityType::MText(_) => {
            reveal_strlit("MText");
        },
        EntityType::OleFrame => {
            reveal_strlit("OleFrame");
        },
        EntityType::Ole2Frame => {
            reveal_strlit("Ole2Frame");
        },
        EntityType::ModelPoint => {
            reveal_strlit("ModelPoint");
        },
        EntityType::Polyline(_) => {
            reveal_strlit("Polyline");
        },
        EntityType::Ray => {
            reveal_strlit("Ray");
        },
        EntityType::Region => {
            reveal_strlit("Region");
        },
        EntityType::RText => {
            reveal_strlit("RText");
        },
        EntityType::Section => {
            reveal_strlit("Section");
        },
        EntityType::Seqend => {
            reveal_strlit("Seqend");
        },
        EntityType::Shape => {
            reveal_strlit("Shape");
        },
        EntityType::Solid(_) => {
            reveal_strlit("Solid");
        },
        EntityType::Spline(_) => {
            reveal_strlit("Spline");
        },
        EntityType::Text(_) => {
            reveal_strlit("Text");
        },
        EntityType::Tolerance => {
            reveal_strlit("Tolerance");
        },
        EntityType::Trace => {
            reveal_strlit("Trace");
        },
        EntityType::DgnUnderlay => {
            reveal_strlit("DgnUnderlay");
        },
        EntityType::DwfUnderlay => {
            reveal_strlit("DwfUnderlay");
        },
        EntityType::PdfUnderlay => {
            reveal_strlit("PdfUnderlay");
        },
        EntityType::Vertex => {
            reveal_strlit("Vertex");
        },
        EntityType::Wipeout => {
            reveal_strlit("Wipeout");
        },
        EntityType::XLine => {
            reveal_strlit("XLine");
        },
    }
}

proof fn lemma_signatures_differ(a: EntityType, b: EntityType)
    requires
        kind_signature(a) == kind_signature(b),
    ensures
        kind_number(a) == kind_number(b),
{
}

/// Entities of different kinds have different names, and those of one kind the same.
pub proof fn law_names_tell_kinds_apart(a: EntityType, b: EntityType)
    ensures
        entity_type_name(a) == entity_type_name(b) <==> kind_number(a) == kind_number(b),
{
    lemma_signature(a);
    lemma_signature(b);
    if entity_type_name(a) == entity_type_name(b) {
        lemma_signatures_differ(a, b);
    }
}

} // verus!
