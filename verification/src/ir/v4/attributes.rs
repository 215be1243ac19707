//! The attributes a type or value node carries.
//!
//! A node's source location, constraints and extensions are document data that no rule of
//! this library reads: they are carried as the JSON they are written as. Its metadata scope
//! is checked like any other.

use crate::ir::v4::linked_metadata::{AuthoredFacts, MetadataScope};
use crate::ir::v4::types::Type;
use crate::json::JsonValue;
use vstd::prelude::*;

verus! {

/// A type node's attributes: its source location, constraints, extensions, and metadata.
#[derive(Debug, PartialEq)]
pub struct TypeAttributes {
    /// The source location, as written.
    pub source: Option<JsonValue>,
    /// The members of the `constraints` object.
    pub constraints: Vec<(String, JsonValue)>,
    /// The members of the `extensions` object.
    pub extensions: Vec<(String, JsonValue)>,
    /// The node's own metadata scope.
    pub metadata: MetadataScope,
}

/// Whether a metadata scope holds neither a context nor facts.
pub open spec fn scope_is_empty(m: MetadataScope) -> bool {
    m.context is None && m.facts.properties_view().len() == 0
}

/// Whether type attributes carry nothing: the attributes a reader gives a node written
/// without them.
pub open spec fn type_attributes_plain(a: TypeAttributes) -> bool {
    &&& a.source is None
    &&& a.constraints@.len() == 0
    &&& a.extensions@.len() == 0
    &&& scope_is_empty(a.metadata)
}

impl TypeAttributes {
    /// Attributes that carry nothing.
    pub fn empty() -> (r: TypeAttributes)
        ensures
            type_attributes_plain(r),
    {
        TypeAttributes {
            source: None,
            constraints: Vec::new(),
            extensions: Vec::new(),
            metadata: MetadataScope { context: None, facts: AuthoredFacts::new() },
        }
    }

    /// Whether these attributes carry nothing.
    pub fn is_empty(&self) -> (r: bool)
        ensures
            r == type_attributes_plain(*self),
    {
        self.source.is_none() && self.constraints.len() == 0 && self.extensions.len() == 0
            && self.metadata.is_empty()
    }
}

impl Default for TypeAttributes {
    fn default() -> (r: TypeAttributes)
        ensures
            type_attributes_plain(r),
    {
        TypeAttributes::empty()
    }
}

/// A value node's attributes: its source location, its inferred type, its extensions, and
/// its metadata.
#[derive(Debug, PartialEq)]
pub struct ValueAttributes {
    /// The source location, as written.
    pub source: Option<JsonValue>,
    /// The type inference gave the node, once it has run.
    pub inferred_type: Option<Box<Type>>,
    /// The members of the `extensions` object.
    pub extensions: Vec<(String, JsonValue)>,
    /// The node's own metadata scope.
    pub metadata: MetadataScope,
}

/// Whether value attributes carry nothing.
pub open spec fn value_attributes_plain(a: ValueAttributes) -> bool {
    &&& a.source is None
    &&& a.inferred_type is None
    &&& a.extensions@.len() == 0
    &&& scope_is_empty(a.metadata)
}

impl ValueAttributes {
    /// Attributes that carry nothing.
    pub fn empty() -> (r: ValueAttributes)
        ensures
            value_attributes_plain(r),
    {
        ValueAttributes {
            source: None,
            inferred_type: None,
            extensions: Vec::new(),
            metadata: MetadataScope { context: None, facts: AuthoredFacts::new() },
        }
    }

    /// Whether these attributes carry nothing.
    pub fn is_empty(&self) -> (r: bool)
        ensures
            r == value_attributes_plain(*self),
    {
        self.source.is_none() && self.inferred_type.is_none() && self.extensions.len() == 0
            && self.metadata.is_empty()
    }
}

impl Default for ValueAttributes {
    fn default() -> (r: ValueAttributes)
        ensures
            value_attributes_plain(r),
    {
        ValueAttributes::empty()
    }
}

} // verus!
