//! Names, paths and fully qualified names, with their canonical encodings.

pub mod fqname;
pub mod json_names;
pub mod name;
pub mod package_name;
pub mod path;
pub mod stem;
