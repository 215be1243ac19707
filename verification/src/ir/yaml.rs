//! The IR YAML profile.

pub mod read;
pub mod scalar;
