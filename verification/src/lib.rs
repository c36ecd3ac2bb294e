//! Resolution of structural schemas into a closed type model.
//!
//! A schema arrives as a structured document. The grammar loader
//! ([`load_schema`]) reads it into a raw tree: a definition table, root
//! properties and required names. The type resolver ([`resolve`]) turns the
//! raw tree into an output model of enums, classes and root fields, in
//! which every enum and class has one final name.
//!
//! Both are verified against functions over mathematical values: the loader
//! against [`grammar::parse_schema`], the resolver against
//! [`semantics::resolve_model`]. Of every output model it is proved that
//!
//! - no two entries have the same name ([`laws::lemma_names_unique`]),
//! - every name that a field refers to is an entry of the model, of the
//!   right kind ([`laws::lemma_references_closed`]),
//! - no union is empty or nested in a union ([`laws::lemma_unions_flat`]),
//! - it holds what the schema declares ([`laws::lemma_model_reflects`]).
//!
//! Of the errors it is proved that a schema is to blame for them
//! ([`success::lemma_errors_genuine`]), and that a sound schema is resolved
//! where the depth limit is enough ([`success::lemma_success_owed`]).
//!
//! The modules: [`document`] is the input, [`grammar`] and [`loader`] read
//! it, [`schema`] is the raw tree, [`names`] gives final names,
//! [`semantics`] says what resolution means, [`resolver`] carries it out,
//! [`model`] is the output, [`invariants`], [`laws`] and [`success`] hold
//! the proofs, [`error`] the errors and [`text`] the helpers on text.

use vstd::prelude::*;

pub mod document;
pub mod error;
pub mod grammar;
pub mod invariants;
pub mod laws;
pub mod loader;
pub mod model;
pub mod names;
mod registry;
pub mod resolver;
pub mod schema;
pub mod semantics;
pub mod success;
pub mod text;

pub use crate::document::Document;
pub use crate::error::{GrammarError, GrammarReason, ResolveError};
pub use crate::loader::load_schema;
pub use crate::model::{
    OutputModel, Primitive, ResolvedClass, ResolvedEnum, ResolvedField, ResolvedProperty,
};
pub use crate::resolver::{resolve, ResolveOptions};
pub use crate::schema::{
    ArrayDef, ClassDef, Schema, StringOrEnumDef, TypeDef, TypeRef, TypeSpec, TypeSpecWithMeta,
    UnionRef,
};

verus! {

/// The presentation that a renderer of the output model is asked for.
#[derive(Clone, Copy, Debug, PartialEq, Eq)]
pub enum OutputFormatMode {
    /// In the manner of a schema.
    JsonSchema,
    /// In the manner of an interface declaration.
    TsInterface,
}

} // verus!
