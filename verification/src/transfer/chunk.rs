//! Bookkeeping for one chunk of a streamed file.

use vstd::prelude::*;

verus! {

/// The size of the chunks a file is cut into: 1 MiB.
pub const CHUNK_SIZE: usize = 1024 * 1024;

#[derive(Debug, Clone, Copy, PartialEq, Eq, Structural)]
pub struct ChunkInfo {
    pub index: u64,
    pub plaintext_len: u32,
}

impl ChunkInfo {
    /// Records a chunk; its length is kept in 32 bits, truncated as `as u32` does.
    pub fn new(index: u64, plaintext_len: usize) -> (c: Self)
        ensures
            c.index == index,
            c.plaintext_len == plaintext_len as u32,
            plaintext_len <= u32::MAX ==> c.plaintext_len == plaintext_len,
    {
        Self { index, plaintext_len: plaintext_len as u32 }
    }
}

} // verus!
