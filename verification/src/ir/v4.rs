//! Morphir IR version 4: the model, the document-tree files and the legacy spelling window.

pub mod access;
pub mod attributes;
pub mod distribution;
pub mod legacy;
pub mod linked_metadata;
pub mod linked_metadata_scan;
pub mod literal;
pub mod module;
pub mod package;
pub mod pattern;
pub mod serde_document;
pub mod serde_v4;
pub mod tree_files;
pub mod types;
pub mod value;

use vstd::prelude::*;

verus! {

/// A format version as written: a string such as `4.0.0`, or an integer such as `4`.
#[derive(Debug, Clone, PartialEq)]
pub enum FormatVersion {
    String(String),
    Integer(u32),
}

impl Default for FormatVersion {
    fn default() -> (r: FormatVersion)
        ensures
            r == FormatVersion::Integer(4),
    {
        FormatVersion::Integer(4)
    }
}

} // verus!
