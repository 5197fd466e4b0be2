//! Virtual file systems: metadata, path segments, errors and in-memory trees.

pub mod error;
pub mod metadata;
pub mod path;
pub mod segment;
pub mod memoryfs;
pub mod nativefs;
pub mod overlayfs;
pub mod server;
