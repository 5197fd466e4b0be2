//! The wire formats and server state of an NFSv4.0 server.

pub mod error;
pub mod state;
pub mod xdr;
pub mod proto;
pub mod rpc;
pub mod server;
