//! Morphir IR naming, node addressing and v4 model core.

pub mod format_version;
pub mod ir;
pub mod json;
pub mod metadata;
pub mod migration;
pub mod naming;
pub mod node_address;
pub mod text;
