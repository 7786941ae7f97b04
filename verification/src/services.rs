//! The computing halves of the tool's services: each takes what a caller read
//! from the file system and returns what the caller should write, move or
//! report.
pub mod caption_service;
pub mod file_service;
pub mod inference_service;
pub mod model_download;
pub mod model_service;
pub mod platform_service;
pub mod rename_service;
pub mod sort_service;
pub mod tag_file;
pub mod tag_service;
