//! Failures of a graph-wide rebinding of node addresses.

use crate::metadata::MetadataError;
use vstd::prelude::*;

verus! {

/// A failed graph-wide URI binding; the input graph remains unchanged.
#[derive(Debug)]
pub enum GraphMapError<E> {
    /// The caller's binding refused an address.
    Binding(E),
    /// The rebound graph broke a model rule.
    Model(MetadataError),
}

} // verus!
