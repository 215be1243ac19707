//! Linked metadata: document identities, predicate declarations and context expansion.

pub mod admission;
pub mod assertion;
pub mod context;
pub mod context_resolve;

pub mod graph;
pub mod term;

use vstd::prelude::*;

verus! {

/// A metadata model or graph-execution error.
#[derive(Debug, Clone, Copy, PartialEq, Eq, Structural)]
pub enum MetadataError {
    /// A document identity cannot be empty.
    EmptyDocumentId,
    /// A node-local carrier must describe its enclosing node.
    CarrierSubjectMismatch,
    /// Document provenance comes only from the assertion owner.
    DocumentProvenanceIsImplicit,
    /// Named graph identity is modeled but cannot be inserted into the graph executor.
    NamedGraphUnsupported,
}

/// The message a metadata error carries.
pub open spec fn metadata_error_message(e: MetadataError) -> Seq<char> {
    match e {
        MetadataError::EmptyDocumentId => "document identity must not be empty"@,
        MetadataError::CarrierSubjectMismatch =>
            "node-local carrier does not match the fact subject"@,
        MetadataError::DocumentProvenanceIsImplicit =>
            "document provenance is implicit and cannot be added as detail"@,
        MetadataError::NamedGraphUnsupported =>
            "named graphs are not supported by the first metadata graph executor"@,
    }
}

impl MetadataError {
    /// The error's message.
    pub fn message(&self) -> (r: String)
        ensures
            r@ == metadata_error_message(*self),
    {
        match self {
            MetadataError::EmptyDocumentId => String::from_str(
                "document identity must not be empty",
            ),
            MetadataError::CarrierSubjectMismatch => String::from_str(
                "node-local carrier does not match the fact subject",
            ),
            MetadataError::DocumentProvenanceIsImplicit => String::from_str(
                "document provenance is implicit and cannot be added as detail",
            ),
            MetadataError::NamedGraphUnsupported => String::from_str(
                "named graphs are not supported by the first metadata graph executor",
            ),
        }
    }
}

} // verus!
