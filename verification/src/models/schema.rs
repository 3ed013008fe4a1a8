//! The model of one named schema, as schema detail shows it.
use vstd::prelude::*;
use crate::models::resource::{ExternalDoc, Field};
use crate::models::openapi::texts;

verus! {

/// A discriminator: the property that tells the variants apart and the
/// `(value, schema name)` pairs that map values to variants.
#[derive(Debug, Clone)]
pub struct DiscriminatorInfo {
    pub property_name: String,
    pub mapping: Vec<(String, String)>,
}

#[derive(Debug)]
pub struct SchemaModel {
    pub name: String,
    pub title: Option<String>,
    pub description: Option<String>,
    pub fields: Vec<Field>,
    pub composition: Option<Composition>,
    pub discriminator: Option<DiscriminatorInfo>,
    pub external_docs: Option<ExternalDoc>,
    pub base_type: Option<String>,
}

#[derive(Debug, Clone)]
pub enum Composition {
    AllOf,
    OneOf(Vec<String>),
    AnyOf(Vec<String>),
    Enum(Vec<String>),
}

/// A composition as text: what `Composition` holds.
pub enum CompositionView {
    AllOf,
    OneOf(Seq<Seq<char>>),
    AnyOf(Seq<Seq<char>>),
    Enum(Seq<Seq<char>>),
}

impl Composition {
    pub open spec fn comp_view(&self) -> CompositionView {
        match self {
            Composition::AllOf => CompositionView::AllOf,
            Composition::OneOf(v) => CompositionView::OneOf(texts(v@)),
            Composition::AnyOf(v) => CompositionView::AnyOf(texts(v@)),
            Composition::Enum(v) => CompositionView::Enum(texts(v@)),
        }
    }
}

pub open spec fn opt_comp_view(c: Option<Composition>) -> Option<CompositionView> {
    match c {
        Some(x) => Some(x.comp_view()),
        None => None,
    }
}

/// A discriminator as text: the property and the mapping pairs.
pub open spec fn disc_view(d: Option<DiscriminatorInfo>) -> Option<(Seq<char>, Seq<(Seq<char>, Seq<char>)>)> {
    match d {
        Some(x) => Some((x.property_name@, x.mapping@.map_values(|e: (String, String)| (e.0@, e.1@)))),
        None => None,
    }
}

} // verus!
