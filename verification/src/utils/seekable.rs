//! A reader with nothing to read.

use vstd::prelude::*;

verus! {

/// A seekable reader that holds no bytes: every read gives nothing and every seek lands at 0.
#[derive(Debug)]
pub struct EmptySeekableReader;

impl EmptySeekableReader {
    /// Reads into a buffer with room for `room` bytes: no byte is read.
    pub fn read_into(&mut self, room: usize) -> (n: usize)
        ensures
            n == 0,
    {
        0
    }

    /// The position after any seek: 0.
    pub fn seek_position(&self) -> (p: u64)
        ensures
            p == 0,
    {
        0
    }
}

} // verus!
