//! `monocore` collects the verified core of a micro-VM toolkit: a virtual file system with
//! in-memory and overlay layers, a content-addressed block store with content-defined chunking,
//! and the wire formats of an NFS server.

pub mod text;
pub mod vfs;
pub mod store;
pub mod nfs;
pub mod utils;
pub mod raft;
