//! Content-addressed storage: chunkers, layouts and stores.

pub mod constants;
pub mod fastcdc;
pub mod quickcdc;
pub mod codec;
pub mod dual;
pub mod flat;
pub mod flatfs;
pub mod memstore;
pub mod gcrun;
