//! Zstandard compression at level 1, through the `zstd` crate.

use vstd::prelude::*;

verus! {

/// The bytes that `zstd::stream::encode_all(data, 1)` produces for `data`:
/// one Zstandard frame at compression level 1.
pub uninterp spec fn zstd_compressed(data: Seq<u8>) -> Seq<u8>;

/// The shortest Zstandard frame header, magic number included
/// (`ZSTD_FRAMEHEADERSIZE_MIN` of `zstd.h` for the standard format): no
/// compressed output is shorter.
pub const ZSTD_MIN_FRAME_LEN: usize = 6;

/// `zstd::stream::encode_all` at level 1, of the `zstd` crate.
///
/// Claimed of it: it succeeds, and what it returns is the named level-1
/// compression of `data`. It reads from an in-memory slice, which cannot
/// fail, writes into a `Vec`, which cannot fail, and level 1 is a valid
/// level, so the only errors left in its source are the zstd library
/// running out of memory (its context creation already panics then). What
/// it returns is one whole frame, so it is at least a frame header long. The
/// error type is kept, converted to text, as the callers handle it.
#[verifier::external_body]
pub(crate) fn zstd_encode(data: &[u8]) -> (r: Result<Vec<u8>, String>)
    ensures
        r is Ok,
        r matches Ok(c) ==> c@ == zstd_compressed(data@),
        r matches Ok(c) ==> c@.len() >= ZSTD_MIN_FRAME_LEN,
{
    zstd::stream::encode_all(data, 1).map_err(|e| e.to_string())
}

/// `zstd::stream::decode_all` of the `zstd` crate.
///
/// Claimed of it: compression is lossless, so a level-1 compression of some
/// data decodes to that data, and decoding fails on no such input. Of other
/// inputs nothing is claimed; the error is handed back as text.
#[verifier::external_body]
pub(crate) fn zstd_decode(data: &[u8]) -> (r: Result<Vec<u8>, String>)
    ensures
        r matches Ok(d) ==> forall|x: Seq<u8>| #[trigger] zstd_compressed(x) == data@ ==> d@ == x,
        r is Err ==> forall|x: Seq<u8>| #[trigger] zstd_compressed(x) != data@,
{
    zstd::stream::decode_all(data).map_err(|e| e.to_string())
}

} // verus!
