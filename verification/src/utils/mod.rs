//! Path utilities shared by the file system tools.

pub mod path;
pub mod fs_path;
pub mod seekable;
pub mod rotation;
pub mod supervisor;
pub mod dir;
