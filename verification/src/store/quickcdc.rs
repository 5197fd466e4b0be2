//! A chunker that cuts data into pieces of one fixed size.

use vstd::prelude::*;
use crate::store::constants::DEFAULT_CHUNK_MAX_SIZE;

verus! {

/// A chunker with a fixed chunk size.
#[derive(Debug)]
pub struct QuickCdcChunker {
    chunk_size: u64,
}

impl QuickCdcChunker {
    /// The size of each chunk.
    pub closed spec fn spec_chunk_size(&self) -> u64 {
        self.chunk_size
    }

    /// Creates a chunker with the given chunk size.
    pub fn new(chunk_size: u64) -> (c: Self)
        ensures
            c.spec_chunk_size() == chunk_size,
    {
        QuickCdcChunker { chunk_size }
    }

    /// Creates a chunker with the default chunk size.
    pub fn default_chunker() -> (c: Self)
        ensures
            c.spec_chunk_size() == DEFAULT_CHUNK_MAX_SIZE,
    {
        Self::new(DEFAULT_CHUNK_MAX_SIZE)
    }

    /// The largest chunk that the chunker produces: its chunk size.
    pub fn chunk_max_size(&self) -> (r: Option<u64>)
        ensures
            r == Some(self.spec_chunk_size()),
    {
        Some(self.chunk_size)
    }
}

} // verus!
