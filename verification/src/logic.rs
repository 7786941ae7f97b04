//! Pure rules of the tool, independent of any file system.
pub mod file_names;
pub mod naming;
pub mod order;
pub mod path_convert;
pub mod paths;
pub mod sorting;
pub mod tag_definition;
pub mod tag_ops;
pub mod text;
