//! The header of a packed Tailsfer file.
//!
//! Layout (integers little-endian):
//!
//! ```text
//! [ magic "TLSFR001": 8 ][ version: 4 ][ original size: 8 ][ chunk size: 8 ]
//! ```

use crate::bytes::{
    append_bytes, le_bytes, le_value, lemma_le_roundtrip, lemma_le_value_roundtrip,
    lemma_pow256_values, push_le, read_le,
};
use vstd::prelude::*;

verus! {

/// The eight bytes `TLSFR001` that open every packed file.
pub const MAGIC: [u8; 8] = [84, 76, 83, 70, 82, 48, 48, 49];

pub const HEADER_SIZE: usize = 8 + 4 + 8 + 8;

/// The header format version that `FileHeader::new` writes.
pub const FORMAT_VERSION: u32 = 1;

/// The magic as a sequence.
pub open spec fn magic_seq() -> Seq<u8> {
    seq![84u8, 76u8, 83u8, 70u8, 82u8, 48u8, 48u8, 49u8]
}

#[derive(Debug, Clone, Copy, PartialEq, Eq, Structural)]
pub struct FileHeader {
    pub version: u32,
    pub original_size: u64,
    pub chunk_size: u64,
}

/// Why a header could not be read.
#[derive(Debug, Clone, Copy, PartialEq, Eq, Structural)]
pub enum HeaderError {
    /// The input ended before the header did.
    UnexpectedEof,
    /// The input does not start with the magic: it is not a Tailsfer file.
    InvalidData,
}

/// The bytes of a header.
pub open spec fn header_bytes(h: FileHeader) -> Seq<u8> {
    magic_seq() + le_bytes(h.version as nat, 4) + le_bytes(h.original_size as nat, 8) + le_bytes(
        h.chunk_size as nat,
        8,
    )
}

/// What reading a header from the start of `d` gives: the magic is read
/// first, then the three numbers.
pub open spec fn read_header_spec(d: Seq<u8>) -> Result<FileHeader, HeaderError> {
    if d.len() < 8 {
        Err(HeaderError::UnexpectedEof)
    } else if d.subrange(0, 8) != magic_seq() {
        Err(HeaderError::InvalidData)
    } else if d.len() < 28 {
        Err(HeaderError::UnexpectedEof)
    } else {
        Ok(
            FileHeader {
                version: le_value(d.subrange(8, 12)) as u32,
                original_size: le_value(d.subrange(12, 20)) as u64,
                chunk_size: le_value(d.subrange(20, 28)) as u64,
            },
        )
    }
}

impl FileHeader {
    pub fn new(original_size: u64, chunk_size: u64) -> (h: Self)
        ensures
            h == (FileHeader { version: 1, original_size, chunk_size }),
    {
        Self { version: FORMAT_VERSION, original_size, chunk_size }
    }

    /// Appends the header bytes to `writer`.
    pub fn write_to(&self, writer: &mut Vec<u8>) -> (r: Result<(), HeaderError>)
        ensures
            r is Ok,
            final(writer)@ == old(writer)@ + header_bytes(*self),
    {
        let magic = MAGIC;
        append_bytes(writer, &magic);
        assert(magic@ =~= magic_seq());
        push_le(writer, self.version as u64, 4);
        push_le(writer, self.original_size, 8);
        push_le(writer, self.chunk_size, 8);
        assert(writer@ =~= old(writer)@ + header_bytes(*self));
        Ok(())
    }

    /// Reads a header from the start of `reader`; bytes after it are left alone.
    pub fn read_from(reader: &[u8]) -> (r: Result<Self, HeaderError>)
        ensures
            r == read_header_spec(reader@),
    {
        if reader.len() < 8 {
            return Err(HeaderError::UnexpectedEof);
        }
        let magic = MAGIC;
        let mut i: usize = 0;
        while i < 8
            invariant
                i <= 8,
                8 <= reader@.len(),
                magic@ == magic_seq(),
                forall|j: int| 0 <= j < i ==> reader@[j] == magic_seq()[j],
            decreases 8 - i,
        {
            if reader[i] != magic[i] {
                assert(reader@.subrange(0, 8)[i as int] != magic_seq()[i as int]);
                return Err(HeaderError::InvalidData);
            }
            i = i + 1;
        }
        assert(reader@.subrange(0, 8) =~= magic_seq());
        if reader.len() < HEADER_SIZE {
            return Err(HeaderError::UnexpectedEof);
        }
        proof {
            lemma_pow256_values();
            lemma_le_value_roundtrip(reader@.subrange(8, 12));
        }
        let version = read_le(reader, 8, 4) as u32;
        let original_size = read_le(reader, 12, 8);
        let chunk_size = read_le(reader, 20, 8);
        Ok(Self { version, original_size, chunk_size })
    }
}

/// Reading the bytes that `write_to` wrote gives the header back, whatever follows.
pub proof fn lemma_header_roundtrip(h: FileHeader, rest: Seq<u8>)
    ensures
        read_header_spec(header_bytes(h) + rest) == Ok::<FileHeader, HeaderError>(h),
        header_bytes(h).len() == HEADER_SIZE,
{
    let d = header_bytes(h) + rest;
    lemma_pow256_values();
    lemma_le_roundtrip(h.version as nat, 4);
    lemma_le_roundtrip(h.original_size as nat, 8);
    lemma_le_roundtrip(h.chunk_size as nat, 8);
    assert(d.subrange(0, 8) =~= magic_seq());
    assert(d.subrange(8, 12) =~= le_bytes(h.version as nat, 4));
    assert(d.subrange(12, 20) =~= le_bytes(h.original_size as nat, 8));
    assert(d.subrange(20, 28) =~= le_bytes(h.chunk_size as nat, 8));
}

/// The header's layout: 28 bytes, the ASCII text `TLSFR001` first, then
/// the version in bytes 8 to 12, the original size in bytes 12 to 20 and
/// the chunk size in bytes 20 to 28, each little-endian.
pub proof fn lemma_header_layout(h: FileHeader)
    ensures
        header_bytes(h).len() == 28,
        forall|i: int| 0 <= i < 8 ==> #[trigger] header_bytes(h)[i] == "TLSFR001"@[i] as u8,
        le_value(header_bytes(h).subrange(8, 12)) == h.version,
        le_value(header_bytes(h).subrange(12, 20)) == h.original_size,
        le_value(header_bytes(h).subrange(20, 28)) == h.chunk_size,
        FORMAT_VERSION == 1,
{
    reveal_strlit("TLSFR001");
    let d = header_bytes(h);
    lemma_pow256_values();
    lemma_le_roundtrip(h.version as nat, 4);
    lemma_le_roundtrip(h.original_size as nat, 8);
    lemma_le_roundtrip(h.chunk_size as nat, 8);
    assert(d.subrange(0, 8) =~= magic_seq());
    assert(d.subrange(8, 12) =~= le_bytes(h.version as nat, 4));
    assert(d.subrange(12, 20) =~= le_bytes(h.original_size as nat, 8));
    assert(d.subrange(20, 28) =~= le_bytes(h.chunk_size as nat, 8));
    assert forall|i: int| 0 <= i < 8 implies #[trigger] header_bytes(h)[i] == "TLSFR001"@[i] as u8 by {
        assert(d[i] == d.subrange(0, 8)[i]);
    }
}

} // verus!
