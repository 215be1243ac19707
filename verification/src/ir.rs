//! The Morphir IR model.

pub mod diagnostic;
pub mod v4;
pub mod yaml;
