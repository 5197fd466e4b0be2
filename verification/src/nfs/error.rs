//! Errors of the NFS server.

use vstd::prelude::*;

verus! {

/// The error of an NFSv4.0 operation.
#[derive(Debug)]
pub enum NfsError {
    /// I/O error
    Io(std::io::Error),
    /// XDR encoding/decoding error
    Xdr(String),
    /// RPC protocol error
    Rpc(String),
    /// NFS protocol error
    Nfs(String),
    /// State management error
    State(String),
}

/// The result of an NFSv4.0 operation.
pub type NfsResult<T> = Result<T, NfsError>;

} // verus!
