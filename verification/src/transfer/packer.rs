//! Opportunistic compression of chunks: a chunk is compressed when a
//! sample of it shrinks by more than about 5%, and kept only when smaller.

use crate::bytes::append_bytes;
use crate::compress::{zstd_compressed, zstd_encode};
use crate::transfer::chunk::CHUNK_SIZE;
use vstd::prelude::*;

verus! {

#[derive(Debug, Clone, Copy, PartialEq, Eq, Structural)]
pub enum Compression {
    Stored,
    Zstd,
}

/// Why packing failed.
#[derive(Debug, Clone, PartialEq, Eq)]
pub enum PackError {
    /// The compressor reported an error; its text is kept.
    Compression(String),
}

/// Chunks shorter than this are never compressed.
pub const MIN_COMPRESS_LEN: usize = 4096;

/// The most bytes of a chunk that are compressed to judge it.
pub const SAMPLE_LEN: usize = 64 * 1024;

/// The part of a chunk that is compressed to judge it: its first 64 KiB.
pub open spec fn sample_of(data: Seq<u8>) -> Seq<u8> {
    data.take(if data.len() < SAMPLE_LEN { data.len() as int } else { SAMPLE_LEN as int })
}

/// Whether a sample of `sample_len` bytes that compressed to
/// `compressed_len` bytes shrank enough: by more than a twentieth of the
/// compressed size.
pub open spec fn worthwhile(sample_len: nat, compressed_len: nat) -> bool {
    compressed_len + compressed_len / 20 < sample_len
}

/// A sample is worth compressing when it shrinks by about a twentieth: at
/// least that much always suffices, and a sample that shrinks by clearly
/// less never does; a sample that does not shrink never does.
pub proof fn lemma_worthwhile_ratio(sample_len: nat, compressed_len: nat)
    ensures
        21 * compressed_len + 20 <= 20 * sample_len ==> worthwhile(sample_len, compressed_len),
        worthwhile(sample_len, compressed_len) ==> 21 * compressed_len < 20 * sample_len + 20,
        worthwhile(sample_len, compressed_len) ==> compressed_len < sample_len,
{
    let c = compressed_len as int;
    let q = c / 20;
    assert(c == 20 * q + c % 20 && 0 <= c % 20 < 20);
    assert(21 * c + 20 <= 20 * sample_len ==> c + q < sample_len) by (nonlinear_arith)
        requires
            c == 20 * q + c % 20,
            0 <= c % 20 < 20,
            q >= 0,
    ;
    assert(c + q < sample_len ==> 21 * c < 20 * sample_len + 20) by (nonlinear_arith)
        requires
            c == 20 * q + c % 20,
            0 <= c % 20 < 20,
    ;
}

/// What a chunk becomes under a compression choice.
pub open spec fn packed_piece(data: Seq<u8>, c: Compression) -> Seq<u8> {
    match c {
        Compression::Stored => data,
        Compression::Zstd => zstd_compressed(data),
    }
}

/// Whether `data` is worth compressing: it is at least 4 KiB long and its
/// first 64 KiB shrink enough under level-1 Zstandard.
pub open spec fn compress_pays(data: Seq<u8>) -> bool {
    &&& data.len() >= MIN_COMPRESS_LEN
    &&& worthwhile(sample_of(data).len(), zstd_compressed(sample_of(data)).len())
}

/// The choice `pack_chunk` makes for `data`: Zstandard when compressing pays
/// and the compressed chunk is shorter than the chunk, stored otherwise.
pub open spec fn pack_choice(data: Seq<u8>) -> Compression {
    if compress_pays(data) && zstd_compressed(data).len() < data.len() {
        Compression::Zstd
    } else {
        Compression::Stored
    }
}

/// Decides, from the sizes, whether a sample shrank enough.
pub fn compression_worthwhile(sample_len: usize, compressed_len: usize) -> (b: bool)
    ensures
        b == worthwhile(sample_len as nat, compressed_len as nat),
{
    (compressed_len as u128) + (compressed_len as u128) / 20 < sample_len as u128
}

/// Whether to compress `data`: it must be at least 4 KiB long, and its
/// first 64 KiB must shrink enough under level-1 Zstandard.
pub fn should_compress(data: &[u8]) -> (b: bool)
    ensures
        b == compress_pays(data@),
{
    if data.len() < MIN_COMPRESS_LEN {
        return false;
    }
    let n = if data.len() < SAMPLE_LEN {
        data.len()
    } else {
        SAMPLE_LEN
    };
    let sample = vstd::slice::slice_subrange(data, 0, n);
    assert(sample@ =~= sample_of(data@));
    let compressed = match zstd_encode(sample) {
        Ok(value) => value,
        Err(_) => return false,
    };
    compression_worthwhile(sample.len(), compressed.len())
}

/// Chooses between the compressed form of a chunk and the chunk itself:
/// the compressed form is kept only when it is shorter.
pub fn select_packing(data: &[u8], compressed: Vec<u8>) -> (r: (Compression, Vec<u8>))
    ensures
        compressed@.len() < data@.len() ==> r.0 == Compression::Zstd && r.1@ == compressed@,
        compressed@.len() >= data@.len() ==> r.0 == Compression::Stored && r.1@ == data@,
{
    if compressed.len() < data.len() {
        (Compression::Zstd, compressed)
    } else {
        (Compression::Stored, vstd::slice::slice_to_vec(data))
    }
}

/// Packs one chunk: compressed when `should_compress` says so and the
/// compression is shorter, stored as is otherwise.
pub fn pack_chunk(data: &[u8]) -> (r: Result<(Compression, Vec<u8>), PackError>)
    ensures
        r matches Ok((c, v)) && c == pack_choice(data@) && v@ == packed_piece(data@, c),
{
    if should_compress(data) {
        let compressed = match zstd_encode(data) {
            Ok(c) => c,
            Err(e) => return Err(PackError::Compression(e)),
        };
        return Ok(select_packing(data, compressed));
    }
    Ok((Compression::Stored, vstd::slice::slice_to_vec(data)))
}

/// Packs one chunk of a stream and appends it to `output`; returns the
/// choice made. A caller that reads its input piece by piece hands each
/// piece here in turn.
pub fn write_packed_chunk(data: &[u8], output: &mut Vec<u8>) -> (r: Result<Compression, PackError>)
    ensures
        r matches Ok(c) && c == pack_choice(data@),
        final(output)@ == old(output)@ + packed_piece(data@, pack_choice(data@)),
{
    let (c, packed) = pack_chunk(data)?;
    append_bytes(output, packed.as_slice());
    Ok(c)
}

/// The `k`-th chunk of `input`: bytes `k * CHUNK_SIZE` up to the next
/// multiple of `CHUNK_SIZE` or the end.
pub open spec fn chunk_of(input: Seq<u8>, k: int) -> Seq<u8> {
    let start = k * CHUNK_SIZE;
    let end = if start + CHUNK_SIZE < input.len() {
        start + CHUNK_SIZE
    } else {
        input.len() as int
    };
    input.subrange(start, end)
}

/// How many chunks `input` is cut into.
pub open spec fn chunk_count(len: nat) -> nat {
    ((len + CHUNK_SIZE - 1) / (CHUNK_SIZE as int)) as nat
}

/// The first `count` chunks of `input`, each packed by its choice, one after the other.
pub open spec fn packed_stream(input: Seq<u8>, kinds: Seq<Compression>, count: nat) -> Seq<u8>
    decreases count,
{
    if count == 0 {
        Seq::empty()
    } else {
        packed_stream(input, kinds, (count - 1) as nat) + packed_piece(
            chunk_of(input, count - 1),
            kinds[count - 1],
        )
    }
}

/// Packs `input` chunk by chunk into `output` and returns how many input
/// bytes it packed. The packed chunks follow each other with no framing.
pub fn pack_reader(input: &[u8], output: &mut Vec<u8>) -> (r: Result<u64, PackError>)
    ensures
        r matches Ok(total) && total == input@.len(),
        final(output)@.len() <= old(output)@.len() + input@.len(),
        exists|kinds: Seq<Compression>|
            {
                &&& kinds.len() == chunk_count(input@.len())
                &&& forall|k: int|
                    0 <= k < kinds.len() ==> #[trigger] kinds[k] == pack_choice(
                        chunk_of(input@, k),
                    )
                &&& final(output)@ == old(output)@ + #[trigger] packed_stream(
                    input@,
                    kinds,
                    chunk_count(input@.len()),
                )
            },
{
    let mut total: u64 = 0;
    let mut pos: usize = 0;
    let mut k: usize = 0;
    let ghost mut kinds: Seq<Compression> = Seq::empty();
    while pos < input.len()
        invariant
            pos <= input@.len(),
            pos <= k * CHUNK_SIZE,
            k > 0 ==> (k - 1) * CHUNK_SIZE < pos,
            pos < input@.len() ==> pos == k * CHUNK_SIZE,
            total == pos,
            kinds.len() == k,
            forall|j: int| 0 <= j < k ==> #[trigger] kinds[j] == pack_choice(chunk_of(input@, j)),
            output@ == old(output)@ + packed_stream(input@, kinds, k as nat),
            output@.len() <= old(output)@.len() + pos,
        decreases input@.len() - pos,
    {
        let end = if input.len() - pos > CHUNK_SIZE {
            pos + CHUNK_SIZE
        } else {
            input.len()
        };
        let piece = vstd::slice::slice_subrange(input, pos, end);
        assert(piece@ =~= chunk_of(input@, k as int));
        let c = write_packed_chunk(piece, output)?;
        proof {
            let old_kinds = kinds;
            kinds = kinds.push(c);
            lemma_packed_stream_prefix(input@, old_kinds, kinds, k as nat);
        }
        let ghost old_pos = pos;
        total = total + (end - pos) as u64;
        pos = end;
        k = k + 1;
        proof {
            assert(pos <= k * CHUNK_SIZE && (k - 1) * CHUNK_SIZE < pos && (pos < input@.len()
                ==> pos == k * CHUNK_SIZE)) by (nonlinear_arith)
                requires
                    old_pos == (k - 1) * CHUNK_SIZE,
                    old_pos < pos <= old_pos + CHUNK_SIZE,
                    pos < input@.len() ==> pos == old_pos + CHUNK_SIZE,
            ;
        }
    }
    proof {
        lemma_chunk_count(input@.len(), k as nat);
    }
    Ok(total)
}

/// The first `count` pieces, each packed by the choice `pack_chunk` makes
/// for it, one after the other.
pub open spec fn packed_pieces(pieces: Seq<Seq<u8>>, count: nat) -> Seq<u8>
    decreases count,
{
    if count == 0 {
        Seq::empty()
    } else {
        packed_pieces(pieces, (count - 1) as nat) + packed_piece(
            pieces[count - 1],
            pack_choice(pieces[count - 1]),
        )
    }
}

/// Packs the pieces that successive reads of a stream gave, up to the first
/// read that gave nothing, into `output`; returns how many bytes it packed.
pub fn pack_reads(reads: &[Vec<u8>], output: &mut Vec<u8>) -> (r: Result<u64, PackError>)
    requires
        pieces_len(read_pieces(reads@), reads@.len()) <= u64::MAX,
    ensures
        exists|count: nat|
            {
                &&& reads_end(read_pieces(reads@), count)
                &&& r == Ok::<u64, PackError>(pieces_len(read_pieces(reads@), count) as u64)
                &&& final(output)@ == old(output)@ + #[trigger] packed_pieces(
                    read_pieces(reads@),
                    count,
                )
            },
{
    let ghost pieces = read_pieces(reads@);
    let mut total: u64 = 0;
    let mut k: usize = 0;
    while k < reads.len() && reads[k].len() > 0
        invariant
            pieces == read_pieces(reads@),
            pieces_len(pieces, reads@.len()) <= u64::MAX,
            k <= reads@.len(),
            forall|j: int| 0 <= j < k ==> (#[trigger] pieces[j]).len() > 0,
            total == pieces_len(pieces, k as nat),
            output@ == old(output)@ + packed_pieces(pieces, k as nat),
        decreases reads@.len() - k,
    {
        let piece = reads[k].as_slice();
        assert(piece@ == pieces[k as int]);
        write_packed_chunk(piece, output)?;
        proof {
            lemma_pieces_len_mono(pieces, (k + 1) as nat, reads@.len());
        }
        total = total + piece.len() as u64;
        k = k + 1;
    }
    proof {
        assert(reads_end(pieces, k as nat));
    }
    Ok(total)
}

/// A length that lies after `k - 1` chunks and within `k` is cut into `k` chunks.
pub proof fn lemma_chunk_count(len: nat, k: nat)
    requires
        len <= k * CHUNK_SIZE,
        k > 0 ==> (k - 1) * CHUNK_SIZE < len,
    ensures
        chunk_count(len) == k,
{
    assert(((len + CHUNK_SIZE - 1) / (CHUNK_SIZE as int)) == k) by (nonlinear_arith)
        requires
            len <= k * 1048576,
            k > 0 ==> (k - 1) * 1048576 < len,
            CHUNK_SIZE == 1048576,
    ;
}

/// The total length of the first `count` pieces.
pub open spec fn pieces_len(pieces: Seq<Seq<u8>>, count: nat) -> nat
    decreases count,
{
    if count == 0 {
        0
    } else {
        pieces_len(pieces, (count - 1) as nat) + pieces[count - 1].len()
    }
}

/// The bytes of each piece read.
pub open spec fn read_pieces(reads: Seq<Vec<u8>>) -> Seq<Seq<u8>> {
    reads.map_values(|v: Vec<u8>| v@)
}

/// Whether `count` is where a stream of reads ends: every read before it
/// gave data, and the read at it (if there is one) gave nothing.
pub open spec fn reads_end(reads: Seq<Seq<u8>>, count: nat) -> bool {
    &&& count <= reads.len()
    &&& forall|j: int| 0 <= j < count ==> (#[trigger] reads[j]).len() > 0
    &&& count < reads.len() ==> reads[count as int].len() == 0
}

/// The total length of fewer pieces is no larger.
pub proof fn lemma_pieces_len_mono(pieces: Seq<Seq<u8>>, a: nat, b: nat)
    requires
        a <= b,
    ensures
        pieces_len(pieces, a) <= pieces_len(pieces, b),
    decreases b,
{
    if a < b {
        lemma_pieces_len_mono(pieces, a, (b - 1) as nat);
    }
}

/// The first `count` chunks of `input`, joined again.
pub open spec fn joined_chunks(input: Seq<u8>, count: nat) -> Seq<u8>
    decreases count,
{
    if count == 0 {
        Seq::empty()
    } else {
        joined_chunks(input, (count - 1) as nat) + chunk_of(input, count - 1)
    }
}

/// The number of chunks of a length: each chunk before the last is full,
/// and all of them together cover the length.
proof fn lemma_chunk_count_bounds(len: nat)
    ensures
        len <= chunk_count(len) * CHUNK_SIZE,
        chunk_count(len) > 0 ==> (chunk_count(len) - 1) * CHUNK_SIZE < len,
{
    let c = chunk_count(len);
    assert(len <= c * 1048576 && (c > 0 ==> (c - 1) * 1048576 < len)) by (nonlinear_arith)
        requires
            c == (len + 1048576 - 1) / 1048576,
    ;
}

/// The first `k` chunks joined are the first `k` MiB of the input.
#[verifier::spinoff_prover]
proof fn lemma_joined_prefix(input: Seq<u8>, k: nat)
    requires
        k <= chunk_count(input.len()),
    ensures
        joined_chunks(input, k) == input.take(
            if k * CHUNK_SIZE < input.len() {
                k * CHUNK_SIZE
            } else {
                input.len() as int
            },
        ),
    decreases k,
{
    lemma_chunk_count_bounds(input.len());
    if k > 0 {
        lemma_joined_prefix(input, (k - 1) as nat);
        assert((k - 1) * CHUNK_SIZE < input.len()) by (nonlinear_arith)
            requires
                k <= chunk_count(input.len()),
                chunk_count(input.len()) > 0 ==> (chunk_count(input.len()) - 1) * CHUNK_SIZE
                    < input.len(),
                k > 0,
        ;
        assert(k * CHUNK_SIZE == (k - 1) * CHUNK_SIZE + CHUNK_SIZE) by (nonlinear_arith);
        let start = (k - 1) * CHUNK_SIZE;
        let end = if k * CHUNK_SIZE < input.len() {
            k * CHUNK_SIZE
        } else {
            input.len() as int
        };
        assert(joined_chunks(input, (k - 1) as nat) == input.take(start));
        assert(chunk_of(input, k - 1) == input.subrange(start, end));
        assert(joined_chunks(input, k) == joined_chunks(input, (k - 1) as nat) + chunk_of(
            input,
            k - 1,
        ));
        assert(input.take(start) + input.subrange(start, end) =~= input.take(end));
    }
}

/// Joining the chunks of `input` gives `input` back, and every chunk holds
/// between one byte and one MiB.
pub proof fn lemma_chunks_rejoin(input: Seq<u8>)
    ensures
        joined_chunks(input, chunk_count(input.len())) == input,
        forall|k: int|
            0 <= k < chunk_count(input.len()) ==> 1 <= (#[trigger] chunk_of(input, k)).len()
                <= CHUNK_SIZE,
{
    let c = chunk_count(input.len());
    lemma_chunk_count_bounds(input.len());
    lemma_joined_prefix(input, c);
    assert(input.take(input.len() as int) =~= input);
    assert forall|k: int| 0 <= k < c implies 1 <= (#[trigger] chunk_of(input, k)).len()
        <= CHUNK_SIZE by {
        assert(k * CHUNK_SIZE < input.len()) by (nonlinear_arith)
            requires
                0 <= k < c,
                c > 0 ==> (c - 1) * CHUNK_SIZE < input.len(),
        ;
    }
}

/// The packed stream of the first `count` chunks depends only on the
/// choices made for them.
pub proof fn lemma_packed_stream_prefix(
    input: Seq<u8>,
    a: Seq<Compression>,
    b: Seq<Compression>,
    count: nat,
)
    requires
        a.len() >= count,
        b.len() >= count,
        forall|j: int| 0 <= j < count ==> a[j] == b[j],
    ensures
        packed_stream(input, a, count) == packed_stream(input, b, count),
    decreases count,
{
    if count > 0 {
        lemma_packed_stream_prefix(input, a, b, (count - 1) as nat);
    }
}

} // verus!
