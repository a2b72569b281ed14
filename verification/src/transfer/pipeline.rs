//! The secure chunk pipeline: each chunk is compressed when that helps,
//! then encrypted and authenticated under the transfer key.
//!
//! A processed stream is a sequence of records, one per chunk:
//!
//! ```text
//! [ ciphertext length: 4, big-endian ][ compression: 1 ][ nonce: 12 ][ ciphertext ]
//! ```

use crate::bytes::{
    append_bytes, be_bytes, be_value, lemma_be_roundtrip, lemma_pow256_values,
    push_be,
};
use crate::compress::{zstd_compressed, zstd_decode, zstd_encode, ZSTD_MIN_FRAME_LEN};
use crate::crypto::encryption::{
    aead_len_handled, aead_len_ok, chacha20poly1305_seal, ciphertext_len_handled, decrypt, encrypt,
    KEY_SIZE, NONCE_SIZE, TAG_SIZE,
};
use crate::transfer::packer::{
    chunk_count, chunk_of, joined_chunks, lemma_chunk_count, lemma_chunks_rejoin,
    lemma_pieces_len_mono, pieces_len, read_pieces, reads_end,
};
use vstd::prelude::*;
use vstd::string::StringExecFns;

verus! {

pub const MAX_CHUNK_SIZE: usize = 1024 * 1024;

#[derive(Debug, Clone, Copy, PartialEq, Eq, Structural)]
pub enum Compression {
    Stored,
    Zstd,
}

impl Compression {
    /// The byte that records each choice in a processed stream.
    pub open spec fn code(self) -> u8 {
        match self {
            Compression::Stored => 0,
            Compression::Zstd => 1,
        }
    }

    pub fn as_u8(self) -> (b: u8)
        ensures
            b == self.code(),
    {
        match self {
            Compression::Stored => 0,
            Compression::Zstd => 1,
        }
    }
}

/// What is encrypted for a chunk under a compression choice.
pub open spec fn chunk_payload(plaintext: Seq<u8>, c: Compression) -> Seq<u8> {
    match c {
        Compression::Stored => plaintext,
        Compression::Zstd => zstd_compressed(plaintext),
    }
}

/// The ciphertext of a chunk under a key, nonce and compression choice.
pub open spec fn sealed_chunk(key: Seq<u8>, nonce: Seq<u8>, plaintext: Seq<u8>, c: Compression) -> Seq<
    u8,
> {
    chacha20poly1305_seal(key, nonce, chunk_payload(plaintext, c))
}

/// The choice `pack_chunk` makes once the compressor has answered: the
/// compressed form exactly when it is shorter.
pub open spec fn chosen_compression(plaintext: Seq<u8>) -> Compression {
    if zstd_compressed(plaintext).len() < plaintext.len() {
        Compression::Zstd
    } else {
        Compression::Stored
    }
}

/// What is encrypted for a chunk is never longer than the chunk, so a chunk
/// the cipher takes is also taken once compressed.
proof fn lemma_payload_no_longer(plaintext: Seq<u8>)
    ensures
        chunk_payload(plaintext, chosen_compression(plaintext)).len() <= plaintext.len(),
        aead_len_ok(plaintext.len()) ==> aead_len_ok(
            chunk_payload(plaintext, chosen_compression(plaintext)).len(),
        ),
{
    let n = chunk_payload(plaintext, chosen_compression(plaintext)).len();
    let m = plaintext.len();
    assert(n / 64 <= m / 64) by (nonlinear_arith)
        requires
            n <= m,
    ;
}

/// Whether `e` is a message that begins with `prefix`.
pub open spec fn has_prefix(e: Seq<char>, prefix: Seq<char>) -> bool {
    prefix.len() <= e.len() && e.take(prefix.len() as int) == prefix
}

/// Chooses what to encrypt: the compressed form when it is shorter.
pub fn select_payload(plaintext: &[u8], compressed: Vec<u8>) -> (r: (Vec<u8>, Compression))
    ensures
        compressed@.len() < plaintext@.len() ==> r.1 == Compression::Zstd && r.0@ == compressed@,
        compressed@.len() >= plaintext@.len() ==> r.1 == Compression::Stored && r.0@
            == plaintext@,
{
    if compressed.len() < plaintext.len() {
        (compressed, Compression::Zstd)
    } else {
        (vstd::slice::slice_to_vec(plaintext), Compression::Stored)
    }
}

fn prefixed_message(prefix: &str, detail: String) -> (s: String)
    ensures
        s@ == prefix@ + detail@,
{
    prefix.to_string().concat(detail.as_str())
}

/// Compresses a chunk when that makes it shorter, then encrypts it under
/// `key` with a fresh nonce. It fails only when what is to be encrypted is
/// too long for the cipher.
pub fn pack_chunk(key: &[u8; KEY_SIZE], plaintext: &[u8]) -> (r: Result<
    (Vec<u8>, Compression, [u8; 12]),
    String,
>)
    requires
        aead_len_handled(chunk_payload(plaintext@, chosen_compression(plaintext@)).len()),
    ensures
        aead_len_ok(chunk_payload(plaintext@, chosen_compression(plaintext@)).len()) ==> (r matches Ok(
            (e, c, n),
        ) && c == chosen_compression(plaintext@) && e@ == sealed_chunk(key@, n@, plaintext@, c)
            && e@.len() == chunk_payload(plaintext@, c).len() + TAG_SIZE),
        !aead_len_ok(chunk_payload(plaintext@, chosen_compression(plaintext@)).len()) ==> (r matches Err(
            e,
        ) && e@ == "encryption failed"@),
        aead_len_ok(plaintext@.len()) ==> r is Ok,
        zstd_compressed(plaintext@).len() >= ZSTD_MIN_FRAME_LEN,
{
    proof {
        lemma_payload_no_longer(plaintext@);
    }
    let compressed = match zstd_encode(plaintext) {
        Ok(c) => c,
        Err(e) => {
            let msg = prefixed_message("compression failed: ", e);
            proof {
                reveal_strlit("compression failed: ");
                assert(msg@.take(20) =~= "compression failed: "@);
            }
            return Err(msg);
        },
    };
    let (payload, compression) = select_payload(plaintext, compressed);
    let (encrypted, nonce) = encrypt(key, payload.as_slice())?;
    Ok((encrypted, compression, nonce))
}

/// Decrypts and authenticates a chunk, then decompresses it when it was compressed.
pub fn unpack_chunk(
    key: &[u8; KEY_SIZE],
    ciphertext: &[u8],
    nonce: &[u8; 12],
    compression: Compression,
) -> (r: Result<Vec<u8>, String>)
    requires
        ciphertext_len_handled(ciphertext@.len()),
    ensures
        forall|p: Seq<u8>|
            aead_len_ok(chunk_payload(p, compression).len()) && #[trigger] sealed_chunk(
                key@,
                nonce@,
                p,
                compression,
            ) == ciphertext@ ==> (r matches Ok(q) && q@ == p),
        compression == Compression::Stored ==> (r matches Ok(q) ==> chacha20poly1305_seal(
            key@,
            nonce@,
            q@,
        ) == ciphertext@),
        r matches Err(e) ==> e@ == "authentication failed"@ || has_prefix(
            e@,
            "decompression failed: "@,
        ),
{
    let decrypted = decrypt(key, nonce, ciphertext)?;
    match compression {
        Compression::Stored => Ok(decrypted),
        Compression::Zstd => match zstd_decode(decrypted.as_slice()) {
            Ok(d) => Ok(d),
            Err(e) => {
                let msg = prefixed_message("decompression failed: ", e);
                proof {
                    reveal_strlit("decompression failed: ");
                    assert(msg@.take(22) =~= "decompression failed: "@);
                }
                Err(msg)
            },
        },
    }
}

/// One record of a processed stream.
pub open spec fn chunk_record(encrypted: Seq<u8>, c: Compression, nonce: Seq<u8>) -> Seq<u8> {
    be_bytes(encrypted.len(), 4) + seq![c.code()] + nonce + encrypted
}

/// The layout of a record: the ciphertext length in four big-endian bytes,
/// the compression byte (0 for a stored chunk, 1 for a Zstandard one), the
/// 12-byte nonce, then the ciphertext.
pub proof fn lemma_record_layout(encrypted: Seq<u8>, c: Compression, nonce: Seq<u8>)
    requires
        encrypted.len() < 0x1_0000_0000,
        nonce.len() == NONCE_SIZE,
    ensures
        ({
            let r = chunk_record(encrypted, c, nonce);
            &&& r.len() == 17 + encrypted.len()
            &&& be_value(r.subrange(0, 4)) == encrypted.len()
            &&& r[4] == (if c == Compression::Stored {
                0u8
            } else {
                1u8
            })
            &&& r.subrange(5, 17) == nonce
            &&& r.subrange(17, r.len() as int) == encrypted
        }),
{
    let r = chunk_record(encrypted, c, nonce);
    lemma_pow256_values();
    lemma_be_roundtrip(encrypted.len(), 4);
    assert(r.subrange(0, 4) =~= be_bytes(encrypted.len(), 4));
    assert(r.subrange(5, 17) =~= nonce);
    assert(r.subrange(17, r.len() as int) =~= encrypted);
}

/// The records of the first `count` chunks of `input`, under the nonces
/// and compression choices made for them.
pub open spec fn record_stream(
    key: Seq<u8>,
    input: Seq<u8>,
    nonces: Seq<Seq<u8>>,
    kinds: Seq<Compression>,
    count: nat,
) -> Seq<u8>
    decreases count,
{
    if count == 0 {
        Seq::empty()
    } else {
        let k = count - 1;
        record_stream(key, input, nonces, kinds, (count - 1) as nat) + chunk_record(
            sealed_chunk(key, nonces[k], chunk_of(input, k), kinds[k]),
            kinds[k],
            nonces[k],
        )
    }
}

/// The record stream of the first `count` chunks depends only on the
/// nonces and choices made for them.
pub proof fn lemma_record_stream_prefix(
    key: Seq<u8>,
    input: Seq<u8>,
    n1: Seq<Seq<u8>>,
    k1: Seq<Compression>,
    n2: Seq<Seq<u8>>,
    k2: Seq<Compression>,
    count: nat,
)
    requires
        n1.len() >= count,
        k1.len() >= count,
        n2.len() >= count,
        k2.len() >= count,
        forall|j: int| 0 <= j < count ==> n1[j] == n2[j] && k1[j] == k2[j],
    ensures
        record_stream(key, input, n1, k1, count) == record_stream(key, input, n2, k2, count),
    decreases count,
{
    if count > 0 {
        lemma_record_stream_prefix(key, input, n1, k1, n2, k2, (count - 1) as nat);
    }
}

/// What `process_reader` writes gives its input back: the records carry, in
/// order, the chunks of the input, each sealed under its own nonce and
/// choice with a payload the cipher takes, so `unpack_chunk` can be called
/// on each record and gives its chunk back; the chunks hold one byte to one
/// MiB each, and joined they are the whole input.
pub proof fn lemma_records_recover_input(
    key: Seq<u8>,
    input: Seq<u8>,
    nonces: Seq<Seq<u8>>,
    kinds: Seq<Compression>,
)
    requires
        nonces.len() == chunk_count(input.len()),
        kinds.len() == chunk_count(input.len()),
        forall|k: int|
            0 <= k < kinds.len() ==> (#[trigger] kinds[k]) == chosen_compression(
                chunk_of(input, k),
            ) && sealed_chunk(key, nonces[k], chunk_of(input, k), kinds[k]).len() == chunk_payload(
                chunk_of(input, k),
                kinds[k],
            ).len() + TAG_SIZE,
    ensures
        joined_chunks(input, chunk_count(input.len())) == input,
        forall|k: int|
            0 <= k < kinds.len() ==> 1 <= (#[trigger] chunk_of(input, k)).len() <= MAX_CHUNK_SIZE
                && aead_len_ok(chunk_payload(chunk_of(input, k), kinds[k]).len())
                && ciphertext_len_handled(
                sealed_chunk(key, nonces[k], chunk_of(input, k), kinds[k]).len(),
            ),
{
    lemma_chunks_rejoin(input);
    assert forall|k: int| 0 <= k < kinds.len() implies 1 <= (#[trigger] chunk_of(input, k)).len()
        <= MAX_CHUNK_SIZE && aead_len_ok(chunk_payload(chunk_of(input, k), kinds[k]).len())
        && ciphertext_len_handled(
        sealed_chunk(key, nonces[k], chunk_of(input, k), kinds[k]).len(),
    ) by {
        lemma_payload_no_longer(chunk_of(input, k));
    }
}

/// Processes one chunk of a stream: appends its record to `writer` and
/// returns the compression chosen. A caller that reads its input piece by
/// piece (at most 1 MiB each, as `process_reader` cuts it) hands each piece
/// here in turn.
pub fn write_record(key: &[u8; KEY_SIZE], chunk: &[u8], writer: &mut Vec<u8>) -> (r: Result<
    Compression,
    String,
>)
    requires
        aead_len_ok(chunk@.len()),
    ensures
        r matches Ok(c) && c == chosen_compression(chunk@),
        zstd_compressed(chunk@).len() >= ZSTD_MIN_FRAME_LEN,
        r matches Ok(c) ==> exists|nonce: Seq<u8>|
            nonce.len() == NONCE_SIZE && sealed_chunk(key@, nonce, chunk@, c).len() == chunk_payload(
                chunk@,
                c,
            ).len() + TAG_SIZE && final(writer)@ == old(writer)@ + #[trigger] chunk_record(
                sealed_chunk(key@, nonce, chunk@, c),
                c,
                nonce,
            ),
{
    proof {
        lemma_payload_no_longer(chunk@);
    }
    let (encrypted, compression, nonce) = pack_chunk(key, chunk)?;
    let ghost before = writer@;
    push_be(writer, encrypted.len() as u64, 4);
    writer.push(compression.as_u8());
    append_bytes(writer, &nonce);
    append_bytes(writer, encrypted.as_slice());
    assert(writer@ =~= before + chunk_record(encrypted@, compression, nonce@));
    Ok(compression)
}

/// Processes `reader` chunk by chunk into records appended to `writer`,
/// and returns how many input bytes it processed. A byte slice read into a
/// 1 MiB buffer yields exactly these chunks; `process_reads` takes the
/// pieces that any other reader yields.
pub fn process_reader(reader: &[u8], writer: &mut Vec<u8>, key: &[u8; KEY_SIZE]) -> (r: Result<
    u64,
    String,
>)
    ensures
        r matches Ok(total) && total == reader@.len(),
        exists|nonces: Seq<Seq<u8>>, kinds: Seq<Compression>|
            {
                &&& nonces.len() == chunk_count(reader@.len())
                &&& kinds.len() == chunk_count(reader@.len())
                &&& forall|k: int|
                    0 <= k < kinds.len() ==> (#[trigger] kinds[k]) == chosen_compression(
                        chunk_of(reader@, k),
                    ) && nonces[k].len() == NONCE_SIZE && sealed_chunk(
                        key@,
                        nonces[k],
                        chunk_of(reader@, k),
                        kinds[k],
                    ).len() == chunk_payload(chunk_of(reader@, k), kinds[k]).len() + TAG_SIZE
                    && zstd_compressed(chunk_of(reader@, k)).len() >= ZSTD_MIN_FRAME_LEN
                &&& final(writer)@ == old(writer)@ + #[trigger] record_stream(
                    key@,
                    reader@,
                    nonces,
                    kinds,
                    chunk_count(reader@.len()),
                )
            },
{
    let mut total: u64 = 0;
    let mut pos: usize = 0;
    let mut k: usize = 0;
    let ghost mut kinds: Seq<Compression> = Seq::empty();
    let ghost mut nonces: Seq<Seq<u8>> = Seq::empty();
    while pos < reader.len()
        invariant
            pos <= reader@.len(),
            pos <= k * MAX_CHUNK_SIZE,
            k > 0 ==> (k - 1) * MAX_CHUNK_SIZE < pos,
            pos < reader@.len() ==> pos == k * MAX_CHUNK_SIZE,
            total == pos,
            kinds.len() == k,
            nonces.len() == k,
            forall|j: int|
                0 <= j < k ==> (#[trigger] kinds[j]) == chosen_compression(chunk_of(reader@, j))
                    && nonces[j].len() == NONCE_SIZE && sealed_chunk(
                    key@,
                    nonces[j],
                    chunk_of(reader@, j),
                    kinds[j],
                ).len() == chunk_payload(chunk_of(reader@, j), kinds[j]).len() + TAG_SIZE
                    && zstd_compressed(chunk_of(reader@, j)).len() >= ZSTD_MIN_FRAME_LEN,
            writer@ == old(writer)@ + record_stream(key@, reader@, nonces, kinds, k as nat),
        decreases reader@.len() - pos,
    {
        let end = if reader.len() - pos > MAX_CHUNK_SIZE {
            pos + MAX_CHUNK_SIZE
        } else {
            reader.len()
        };
        let piece = vstd::slice::slice_subrange(reader, pos, end);
        assert(piece@ =~= chunk_of(reader@, k as int));
        assert(aead_len_ok(piece@.len()));
        let ghost before = writer@;
        let compression = match write_record(key, piece, writer) {
            Ok(c) => c,
            Err(e) => return Err(e),
        };
        proof {
            let nonce = choose|nonce: Seq<u8>|
                nonce.len() == NONCE_SIZE && sealed_chunk(key@, nonce, piece@, compression).len()
                    == chunk_payload(piece@, compression).len() + TAG_SIZE && writer@ == before
                    + #[trigger] chunk_record(
                    sealed_chunk(key@, nonce, piece@, compression),
                    compression,
                    nonce,
                );
            let old_kinds = kinds;
            let old_nonces = nonces;
            kinds = kinds.push(compression);
            nonces = nonces.push(nonce);
            lemma_record_stream_prefix(key@, reader@, old_nonces, old_kinds, nonces, kinds, k as nat);
        }
        let ghost old_pos = pos;
        total = total + (end - pos) as u64;
        pos = end;
        k = k + 1;
        proof {
            assert(pos <= k * MAX_CHUNK_SIZE && (k - 1) * MAX_CHUNK_SIZE < pos && (pos
                < reader@.len() ==> pos == k * MAX_CHUNK_SIZE)) by (nonlinear_arith)
                requires
                    old_pos == (k - 1) * MAX_CHUNK_SIZE,
                    old_pos < pos <= old_pos + MAX_CHUNK_SIZE,
                    pos < reader@.len() ==> pos == old_pos + MAX_CHUNK_SIZE,
            ;
        }
    }
    proof {
        lemma_chunk_count(reader@.len(), k as nat);
    }
    Ok(total)
}

/// The records of the first `count` pieces, under the nonces and
/// compression choices made for them.
pub open spec fn piece_records(
    key: Seq<u8>,
    pieces: Seq<Seq<u8>>,
    nonces: Seq<Seq<u8>>,
    kinds: Seq<Compression>,
    count: nat,
) -> Seq<u8>
    decreases count,
{
    if count == 0 {
        Seq::empty()
    } else {
        let k = count - 1;
        piece_records(key, pieces, nonces, kinds, (count - 1) as nat) + chunk_record(
            sealed_chunk(key, nonces[k], pieces[k], kinds[k]),
            kinds[k],
            nonces[k],
        )
    }
}

/// The records of the first `count` pieces depend only on the nonces and
/// choices made for them.
proof fn lemma_piece_records_prefix(
    key: Seq<u8>,
    pieces: Seq<Seq<u8>>,
    n1: Seq<Seq<u8>>,
    k1: Seq<Compression>,
    n2: Seq<Seq<u8>>,
    k2: Seq<Compression>,
    count: nat,
)
    requires
        n1.len() >= count,
        k1.len() >= count,
        n2.len() >= count,
        k2.len() >= count,
        forall|j: int| 0 <= j < count ==> n1[j] == n2[j] && k1[j] == k2[j],
    ensures
        piece_records(key, pieces, n1, k1, count) == piece_records(key, pieces, n2, k2, count),
    decreases count,
{
    if count > 0 {
        lemma_piece_records_prefix(key, pieces, n1, k1, n2, k2, (count - 1) as nat);
    }
}

/// Processes the pieces that successive reads of a stream gave, each at
/// most 1 MiB (the size of the read buffer), up to the first read that gave
/// nothing, into records appended to `writer`; returns how many bytes it
/// processed.
pub fn process_reads(reads: &[Vec<u8>], writer: &mut Vec<u8>, key: &[u8; KEY_SIZE]) -> (r: Result<
    u64,
    String,
>)
    requires
        forall|j: int| 0 <= j < reads@.len() ==> (#[trigger] reads@[j])@.len() <= MAX_CHUNK_SIZE,
        pieces_len(read_pieces(reads@), reads@.len()) <= u64::MAX,
    ensures
        exists|count: nat, nonces: Seq<Seq<u8>>, kinds: Seq<Compression>|
            {
                &&& reads_end(read_pieces(reads@), count)
                &&& r == Ok::<u64, String>(pieces_len(read_pieces(reads@), count) as u64)
                &&& nonces.len() == count
                &&& kinds.len() == count
                &&& forall|k: int|
                    0 <= k < count ==> (#[trigger] kinds[k]) == chosen_compression(read_pieces(reads@)[k])
                        && nonces[k].len() == NONCE_SIZE && sealed_chunk(
                        key@,
                        nonces[k],
                        read_pieces(reads@)[k],
                        kinds[k],
                    ).len() == chunk_payload(read_pieces(reads@)[k], kinds[k]).len() + TAG_SIZE
                &&& final(writer)@ == old(writer)@ + #[trigger] piece_records(
                    key@,
                    read_pieces(reads@),
                    nonces,
                    kinds,
                    count,
                )
            },
{
    let ghost pieces = read_pieces(reads@);
    let mut total: u64 = 0;
    let mut k: usize = 0;
    let ghost mut kinds: Seq<Compression> = Seq::empty();
    let ghost mut nonces: Seq<Seq<u8>> = Seq::empty();
    proof {
        lemma_pieces_len_mono(pieces, 0, reads@.len());
    }
    while k < reads.len() && reads[k].len() > 0
        invariant
            pieces == read_pieces(reads@),
            forall|j: int| 0 <= j < reads@.len() ==> (#[trigger] reads@[j])@.len() <= MAX_CHUNK_SIZE,
            pieces_len(pieces, reads@.len()) <= u64::MAX,
            k <= reads@.len(),
            forall|j: int| 0 <= j < k ==> (#[trigger] pieces[j]).len() > 0,
            total == pieces_len(pieces, k as nat),
            kinds.len() == k,
            nonces.len() == k,
            forall|j: int|
                0 <= j < k ==> (#[trigger] kinds[j]) == chosen_compression(pieces[j])
                    && nonces[j].len() == NONCE_SIZE && sealed_chunk(
                    key@,
                    nonces[j],
                    pieces[j],
                    kinds[j],
                ).len() == chunk_payload(pieces[j], kinds[j]).len() + TAG_SIZE,
            writer@ == old(writer)@ + piece_records(key@, pieces, nonces, kinds, k as nat),
        decreases reads@.len() - k,
    {
        let piece = reads[k].as_slice();
        assert(piece@ == pieces[k as int]);
        assert(aead_len_ok(piece@.len()));
        let ghost before = writer@;
        let compression = match write_record(key, piece, writer) {
            Ok(c) => c,
            Err(e) => return Err(e),
        };
        proof {
            let nonce = choose|nonce: Seq<u8>|
                nonce.len() == NONCE_SIZE && sealed_chunk(key@, nonce, piece@, compression).len()
                    == chunk_payload(piece@, compression).len() + TAG_SIZE && writer@ == before
                    + #[trigger] chunk_record(
                    sealed_chunk(key@, nonce, piece@, compression),
                    compression,
                    nonce,
                );
            let old_kinds = kinds;
            let old_nonces = nonces;
            kinds = kinds.push(compression);
            nonces = nonces.push(nonce);
            lemma_piece_records_prefix(key@, pieces, old_nonces, old_kinds, nonces, kinds, k as nat);
            lemma_pieces_len_mono(pieces, (k + 1) as nat, reads@.len());
        }
        total = total + piece.len() as u64;
        k = k + 1;
    }
    proof {
        assert(reads_end(pieces, k as nat));
    }
    Ok(total)
}

} // verus!
