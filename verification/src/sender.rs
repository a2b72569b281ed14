//! The sending node's decisions: transfer IDs, MIME types, the reading of
//! the receiver's answers, and the bookkeeping of outgoing data.

use crate::bytes::{le_bytes, lemma_le_roundtrip, lemma_pow256_values, push_le};
use crate::digest::{absorbed, blake3_digest, hasher_finalize, hasher_new, hasher_update};
use crate::text::{ascii_lower, eq_ignore_ascii_case, eq_ignore_case};
use crate::transfer::decision::{
    decision_from_frame_spec, parse_complete_frame, parse_complete_spec, TransferDecision,
};
use crate::transport::protocol::{Frame, FrameType};
use vstd::prelude::*;

verus! {

/// The transfer ID made from a clock reading in nanoseconds: its 128 bits,
/// least significant byte first.
pub fn transfer_id_from_nanos(nanos: u128) -> (id: [u8; 16])
    ensures
        id@ == le_bytes(nanos as nat, 16),
{
    let low = #[verifier::truncate] (nanos as u64);
    let high = #[verifier::truncate] ((nanos >> 64u32) as u64);
    assert(low == nanos % 0x1_0000_0000_0000_0000) by (bit_vector)
        requires
            low == #[verifier::truncate] (nanos as u64),
    ;
    assert(high == nanos / 0x1_0000_0000_0000_0000) by (bit_vector)
        requires
            high == #[verifier::truncate] ((nanos >> 64u32) as u64),
    ;
    let mut bytes: Vec<u8> = Vec::new();
    push_le(&mut bytes, low, 8);
    push_le(&mut bytes, high, 8);
    proof {
        lemma_pow256_values();
        lemma_le_split(nanos as nat, 8, 8);
        crate::bytes::lemma_le_bytes_len(nanos as nat, 16);
        assert(bytes@ =~= le_bytes(nanos as nat, 16));
    }
    let mut id = [0u8; 16];
    let mut i: usize = 0;
    while i < 16
        invariant
            i <= 16,
            bytes@ == le_bytes(nanos as nat, 16),
            bytes@.len() == 16,
            forall|j: int| 0 <= j < i ==> id@[j] == bytes@[j],
        decreases 16 - i,
    {
        id[i] = bytes[i];
        i = i + 1;
    }
    assert(id@ =~= bytes@);
    id
}

/// The low `a` bytes of `x`, then the next `b`.
proof fn lemma_le_split(x: nat, a: nat, b: nat)
    ensures
        le_bytes(x, a + b) == le_bytes(x % crate::bytes::pow256(a), a) + le_bytes(
            x / crate::bytes::pow256(a),
            b,
        ),
    decreases a,
{
    if a == 0 {
        assert(crate::bytes::pow256(0) == 1);
        assert(x % 1 == 0 && x / 1 == x);
        assert(le_bytes(x, b) =~= le_bytes(0, 0) + le_bytes(x, b));
    } else {
        let p = crate::bytes::pow256((a - 1) as nat);
        lemma_le_split(x / 256, (a - 1) as nat, b);
        crate::bytes::lemma_pow256_positive((a - 1) as nat);
        assert((x % (256 * p)) % 256 == x % 256 && (x % (256 * p)) / 256 == (x / 256) % p && x / (
        256 * p) == (x / 256) / p) by (nonlinear_arith)
            requires
                p >= 1,
        {
            vstd::arithmetic::div_mod::lemma_mod_mod(x as int, 256, p as int);
            vstd::arithmetic::div_mod::lemma_div_denominator(x as int, 256, p as int);
            vstd::arithmetic::div_mod::lemma_mod_breakdown(x as int, 256, p as int);
        }
        assert(crate::bytes::pow256(a) == 256 * p);
        assert(le_bytes(x, a + b) =~= le_bytes(x % (256 * p), a) + le_bytes(x / (256 * p), b));
    }
}

/// The MIME type sent for a lower-case-insensitive file extension.
pub open spec fn mime_for(ext: Seq<char>) -> Seq<char> {
    if eq_ignore_case(ext, "txt"@) {
        "text/plain"@
    } else if eq_ignore_case(ext, "jpg"@) || eq_ignore_case(ext, "jpeg"@) {
        "image/jpeg"@
    } else if eq_ignore_case(ext, "png"@) {
        "image/png"@
    } else if eq_ignore_case(ext, "gif"@) {
        "image/gif"@
    } else if eq_ignore_case(ext, "mp4"@) {
        "video/mp4"@
    } else if eq_ignore_case(ext, "mp3"@) {
        "audio/mpeg"@
    } else if eq_ignore_case(ext, "pdf"@) {
        "application/pdf"@
    } else if eq_ignore_case(ext, "zip"@) {
        "application/zip"@
    } else {
        "application/octet-stream"@
    }
}

/// Two lower-case words that differ are never both equal, up to case, to
/// the same text.
proof fn lemma_one_case_class(ext: Seq<char>, a: Seq<char>, b: Seq<char>)
    requires
        eq_ignore_case(ext, a),
        forall|i: int| 0 <= i < a.len() ==> ascii_lower(#[trigger] a[i]) == a[i],
        forall|i: int| 0 <= i < b.len() ==> ascii_lower(#[trigger] b[i]) == b[i],
        a != b,
    ensures
        !eq_ignore_case(ext, b),
{
    if eq_ignore_case(ext, b) {
        assert forall|i: int| 0 <= i < a.len() implies a[i] == b[i] by {
            assert(ascii_lower(ext[i]) == ascii_lower(a[i]));
            assert(ascii_lower(ext[i]) == ascii_lower(b[i]));
        }
        assert(a =~= b);
    }
}

/// The MIME type of each known extension, in any letter case: `txt` is
/// `text/plain`, `jpg` and `jpeg` are `image/jpeg`, `png` is `image/png`,
/// `gif` is `image/gif`, `mp4` is `video/mp4`, `mp3` is `audio/mpeg`, `pdf`
/// is `application/pdf` and `zip` is `application/zip`.
pub proof fn lemma_mime_table(ext: Seq<char>)
    ensures
        eq_ignore_case(ext, "txt"@) ==> mime_for(ext) == "text/plain"@,
        eq_ignore_case(ext, "jpg"@) ==> mime_for(ext) == "image/jpeg"@,
        eq_ignore_case(ext, "jpeg"@) ==> mime_for(ext) == "image/jpeg"@,
        eq_ignore_case(ext, "png"@) ==> mime_for(ext) == "image/png"@,
        eq_ignore_case(ext, "gif"@) ==> mime_for(ext) == "image/gif"@,
        eq_ignore_case(ext, "mp4"@) ==> mime_for(ext) == "video/mp4"@,
        eq_ignore_case(ext, "mp3"@) ==> mime_for(ext) == "audio/mpeg"@,
        eq_ignore_case(ext, "pdf"@) ==> mime_for(ext) == "application/pdf"@,
        eq_ignore_case(ext, "zip"@) ==> mime_for(ext) == "application/zip"@,
{
    reveal_strlit("application/pdf");
    reveal_strlit("application/zip");
    reveal_strlit("audio/mpeg");
    reveal_strlit("gif");
    reveal_strlit("image/gif");
    reveal_strlit("image/jpeg");
    reveal_strlit("image/png");
    reveal_strlit("jpeg");
    reveal_strlit("jpg");
    reveal_strlit("mp3");
    reveal_strlit("mp4");
    reveal_strlit("pdf");
    reveal_strlit("png");
    reveal_strlit("text/plain");
    reveal_strlit("txt");
    reveal_strlit("video/mp4");
    reveal_strlit("zip");
    assert(forall|i: int| 0 <= i < "txt"@.len() ==> ascii_lower(#[trigger] "txt"@[i]) == "txt"@[i]);
    assert(forall|i: int| 0 <= i < "jpg"@.len() ==> ascii_lower(#[trigger] "jpg"@[i]) == "jpg"@[i]);
    assert(forall|i: int| 0 <= i < "jpeg"@.len() ==> ascii_lower(#[trigger] "jpeg"@[i]) == "jpeg"@[i]);
    assert(forall|i: int| 0 <= i < "png"@.len() ==> ascii_lower(#[trigger] "png"@[i]) == "png"@[i]);
    assert(forall|i: int| 0 <= i < "gif"@.len() ==> ascii_lower(#[trigger] "gif"@[i]) == "gif"@[i]);
    assert(forall|i: int| 0 <= i < "mp4"@.len() ==> ascii_lower(#[trigger] "mp4"@[i]) == "mp4"@[i]);
    assert(forall|i: int| 0 <= i < "mp3"@.len() ==> ascii_lower(#[trigger] "mp3"@[i]) == "mp3"@[i]);
    assert(forall|i: int| 0 <= i < "pdf"@.len() ==> ascii_lower(#[trigger] "pdf"@[i]) == "pdf"@[i]);
    assert(forall|i: int| 0 <= i < "zip"@.len() ==> ascii_lower(#[trigger] "zip"@[i]) == "zip"@[i]);
    if eq_ignore_case(ext, "jpg"@) {
        assert("jpg"@[0] != "txt"@[0]);
        lemma_one_case_class(ext, "jpg"@, "txt"@);
    }
    if eq_ignore_case(ext, "jpeg"@) {
        assert("jpeg"@.len() != "txt"@.len());
        lemma_one_case_class(ext, "jpeg"@, "txt"@);
        assert("jpeg"@.len() != "jpg"@.len());
        lemma_one_case_class(ext, "jpeg"@, "jpg"@);
    }
    if eq_ignore_case(ext, "png"@) {
        assert("png"@[0] != "txt"@[0]);
        lemma_one_case_class(ext, "png"@, "txt"@);
        assert("png"@[0] != "jpg"@[0]);
        lemma_one_case_class(ext, "png"@, "jpg"@);
        assert("png"@.len() != "jpeg"@.len());
        lemma_one_case_class(ext, "png"@, "jpeg"@);
    }
    if eq_ignore_case(ext, "gif"@) {
        assert("gif"@[0] != "txt"@[0]);
        lemma_one_case_class(ext, "gif"@, "txt"@);
        assert("gif"@[0] != "jpg"@[0]);
        lemma_one_case_class(ext, "gif"@, "jpg"@);
        assert("gif"@.len() != "jpeg"@.len());
        lemma_one_case_class(ext, "gif"@, "jpeg"@);
        assert("gif"@[0] != "png"@[0]);
        lemma_one_case_class(ext, "gif"@, "png"@);
    }
    if eq_ignore_case(ext, "mp4"@) {
        assert("mp4"@[0] != "txt"@[0]);
        lemma_one_case_class(ext, "mp4"@, "txt"@);
        assert("mp4"@[0] != "jpg"@[0]);
        lemma_one_case_class(ext, "mp4"@, "jpg"@);
        assert("mp4"@.len() != "jpeg"@.len());
        lemma_one_case_class(ext, "mp4"@, "jpeg"@);
        assert("mp4"@[0] != "png"@[0]);
        lemma_one_case_class(ext, "mp4"@, "png"@);
        assert("mp4"@[0] != "gif"@[0]);
        lemma_one_case_class(ext, "mp4"@, "gif"@);
    }
    if eq_ignore_case(ext, "mp3"@) {
        assert("mp3"@[0] != "txt"@[0]);
        lemma_one_case_class(ext, "mp3"@, "txt"@);
        assert("mp3"@[0] != "jpg"@[0]);
        lemma_one_case_class(ext, "mp3"@, "jpg"@);
        assert("mp3"@.len() != "jpeg"@.len());
        lemma_one_case_class(ext, "mp3"@, "jpeg"@);
        assert("mp3"@[0] != "png"@[0]);
        lemma_one_case_class(ext, "mp3"@, "png"@);
        assert("mp3"@[0] != "gif"@[0]);
        lemma_one_case_class(ext, "mp3"@, "gif"@);
        assert("mp3"@[2] != "mp4"@[2]);
        lemma_one_case_class(ext, "mp3"@, "mp4"@);
    }
    if eq_ignore_case(ext, "pdf"@) {
        assert("pdf"@[0] != "txt"@[0]);
        lemma_one_case_class(ext, "pdf"@, "txt"@);
        assert("pdf"@[0] != "jpg"@[0]);
        lemma_one_case_class(ext, "pdf"@, "jpg"@);
        assert("pdf"@.len() != "jpeg"@.len());
        lemma_one_case_class(ext, "pdf"@, "jpeg"@);
        assert("pdf"@[1] != "png"@[1]);
        lemma_one_case_class(ext, "pdf"@, "png"@);
        assert("pdf"@[0] != "gif"@[0]);
        lemma_one_case_class(ext, "pdf"@, "gif"@);
        assert("pdf"@[0] != "mp4"@[0]);
        lemma_one_case_class(ext, "pdf"@, "mp4"@);
        assert("pdf"@[0] != "mp3"@[0]);
        lemma_one_case_class(ext, "pdf"@, "mp3"@);
    }
    if eq_ignore_case(ext, "zip"@) {
        assert("zip"@[0] != "txt"@[0]);
        lemma_one_case_class(ext, "zip"@, "txt"@);
        assert("zip"@[0] != "jpg"@[0]);
        lemma_one_case_class(ext, "zip"@, "jpg"@);
        assert("zip"@.len() != "jpeg"@.len());
        lemma_one_case_class(ext, "zip"@, "jpeg"@);
        assert("zip"@[0] != "png"@[0]);
        lemma_one_case_class(ext, "zip"@, "png"@);
        assert("zip"@[0] != "gif"@[0]);
        lemma_one_case_class(ext, "zip"@, "gif"@);
        assert("zip"@[0] != "mp4"@[0]);
        lemma_one_case_class(ext, "zip"@, "mp4"@);
        assert("zip"@[0] != "mp3"@[0]);
        lemma_one_case_class(ext, "zip"@, "mp3"@);
        assert("zip"@[0] != "pdf"@[0]);
        lemma_one_case_class(ext, "zip"@, "pdf"@);
    }
}

/// The MIME type of each known extension written in lower case.
pub proof fn lemma_mime_of_lower_case()
    ensures
        mime_for("txt"@) == "text/plain"@,
        mime_for("jpg"@) == "image/jpeg"@,
        mime_for("jpeg"@) == "image/jpeg"@,
        mime_for("png"@) == "image/png"@,
        mime_for("gif"@) == "image/gif"@,
        mime_for("mp4"@) == "video/mp4"@,
        mime_for("mp3"@) == "audio/mpeg"@,
        mime_for("pdf"@) == "application/pdf"@,
        mime_for("zip"@) == "application/zip"@,
{
    reveal_strlit("txt");
    reveal_strlit("jpg");
    reveal_strlit("jpeg");
    reveal_strlit("png");
    reveal_strlit("gif");
    reveal_strlit("mp4");
    reveal_strlit("mp3");
    reveal_strlit("pdf");
    reveal_strlit("zip");
    lemma_mime_table("txt"@);
    assert(eq_ignore_case("txt"@, "txt"@));
    lemma_mime_table("jpg"@);
    assert(eq_ignore_case("jpg"@, "jpg"@));
    lemma_mime_table("jpeg"@);
    assert(eq_ignore_case("jpeg"@, "jpeg"@));
    lemma_mime_table("png"@);
    assert(eq_ignore_case("png"@, "png"@));
    lemma_mime_table("gif"@);
    assert(eq_ignore_case("gif"@, "gif"@));
    lemma_mime_table("mp4"@);
    assert(eq_ignore_case("mp4"@, "mp4"@));
    lemma_mime_table("mp3"@);
    assert(eq_ignore_case("mp3"@, "mp3"@));
    lemma_mime_table("pdf"@);
    assert(eq_ignore_case("pdf"@, "pdf"@));
    lemma_mime_table("zip"@);
    assert(eq_ignore_case("zip"@, "zip"@));
}

/// The MIME type for a file extension, matched without regard to ASCII case.
pub fn mime_for_extension(ext: &str) -> (m: String)
    ensures
        m@ == mime_for(ext@),
{
    let m = if eq_ignore_ascii_case(ext, "txt") {
        "text/plain"
    } else if eq_ignore_ascii_case(ext, "jpg") || eq_ignore_ascii_case(ext, "jpeg") {
        "image/jpeg"
    } else if eq_ignore_ascii_case(ext, "png") {
        "image/png"
    } else if eq_ignore_ascii_case(ext, "gif") {
        "image/gif"
    } else if eq_ignore_ascii_case(ext, "mp4") {
        "video/mp4"
    } else if eq_ignore_ascii_case(ext, "mp3") {
        "audio/mpeg"
    } else if eq_ignore_ascii_case(ext, "pdf") {
        "application/pdf"
    } else if eq_ignore_ascii_case(ext, "zip") {
        "application/zip"
    } else {
        "application/octet-stream"
    };
    m.to_string()
}

/// The extension of a path as `Path::extension` of std gives it (the part
/// of the file name after its last dot), if it has one.
pub uninterp spec fn path_extension(path: Seq<char>) -> Option<Seq<char>>;

/// `Path::new(path).extension()` of std, converted to text. Its result is
/// the named one.
#[verifier::external_body]
fn extension_of(path: &str) -> (r: Option<String>)
    ensures
        r matches Some(e) ==> path_extension(path@) == Some(e@),
        r is None ==> path_extension(path@) is None,
{
    std::path::Path::new(path).extension().and_then(|x| x.to_str()).map(|x| x.to_string())
}

/// The extension that decides a file's MIME type: none counts as empty.
pub open spec fn mime_extension(path: Seq<char>) -> Seq<char> {
    match path_extension(path) {
        Some(e) => e,
        None => Seq::empty(),
    }
}

/// The MIME type announced for a file: from its extension.
pub fn detect_mime(path: &str) -> (m: String)
    ensures
        m@ == mime_for(mime_extension(path@)),
{
    match extension_of(path) {
        Some(ext) => mime_for_extension(ext.as_str()),
        None => {
            let empty = "";
            proof {
                reveal_strlit("");
                assert(empty@ =~= Seq::<char>::empty());
            }
            mime_for_extension(empty)
        },
    }
}

/// The outcome of the receiver's decision on our offer.
pub open spec fn sender_decision_spec(t: FrameType, payload: Seq<u8>, transfer_id: Seq<u8>) -> Result<
    TransferDecision,
    &'static str,
> {
    if t == FrameType::Accept || t == FrameType::Reject {
        match decision_from_frame_spec(t, payload) {
            Err(e) => Err(e),
            Ok((id, d)) => if id != transfer_id {
                if d == TransferDecision::Accept {
                    Err("receiver accepted a different transfer ID")
                } else {
                    Err("receiver rejected a different transfer ID")
                }
            } else {
                Ok(d)
            },
        }
    } else {
        Err("unexpected frame received instead of decision")
    }
}

/// Reads the receiver's answer to our offer: it must decide on our transfer.
pub fn check_decision(frame: &Frame, transfer_id: &[u8; 16]) -> (r: Result<
    TransferDecision,
    &'static str,
>)
    ensures
        r == sender_decision_spec(frame.frame_type, frame.payload@, transfer_id@),
{
    match frame.frame_type {
        FrameType::Accept | FrameType::Reject => {
            let (id, decision) = TransferDecision::from_frame(frame)?;
            if !same_bytes(&id, transfer_id) {
                match decision {
                    TransferDecision::Accept => Err("receiver accepted a different transfer ID"),
                    TransferDecision::Reject => Err("receiver rejected a different transfer ID"),
                }
            } else {
                Ok(decision)
            }
        },
        _ => Err("unexpected frame received instead of decision"),
    }
}

fn same_bytes<const N: usize>(a: &[u8; N], b: &[u8; N]) -> (r: bool)
    ensures
        r == (a@ == b@),
{
    let mut i: usize = 0;
    while i < N
        invariant
            i <= N,
            a@.len() == N,
            b@.len() == N,
            forall|j: int| 0 <= j < i ==> a@[j] == b@[j],
        decreases N - i,
    {
        if a[i] != b[i] {
            return false;
        }
        i = i + 1;
    }
    assert(a@ =~= b@);
    true
}

/// The error for a frame other than the report after the data: it names the
/// frame's type.
pub open spec fn unexpected_after_transfer_spec(t: FrameType) -> &'static str {
    match t {
        FrameType::Hello => "unexpected frame received after transfer: Hello",
        FrameType::Session => "unexpected frame received after transfer: Session",
        FrameType::TransferOffer => "unexpected frame received after transfer: TransferOffer",
        FrameType::Accept => "unexpected frame received after transfer: Accept",
        FrameType::Reject => "unexpected frame received after transfer: Reject",
        FrameType::Chunk => "unexpected frame received after transfer: Chunk",
        FrameType::Complete => "unexpected frame received after transfer: Complete",
        FrameType::Cancel => "unexpected frame received after transfer: Cancel",
        FrameType::Verified => "unexpected frame received after transfer: Verified",
    }
}

fn unexpected_after_transfer(t: FrameType) -> (e: &'static str)
    ensures
        e == unexpected_after_transfer_spec(t),
{
    match t {
        FrameType::Hello => "unexpected frame received after transfer: Hello",
        FrameType::Session => "unexpected frame received after transfer: Session",
        FrameType::TransferOffer => "unexpected frame received after transfer: TransferOffer",
        FrameType::Accept => "unexpected frame received after transfer: Accept",
        FrameType::Reject => "unexpected frame received after transfer: Reject",
        FrameType::Chunk => "unexpected frame received after transfer: Chunk",
        FrameType::Complete => "unexpected frame received after transfer: Complete",
        FrameType::Cancel => "unexpected frame received after transfer: Cancel",
        FrameType::Verified => "unexpected frame received after transfer: Verified",
    }
}

/// What the sender makes of the receiver's report after the data: a
/// `Complete` frame for our transfer whose digest matches ours is success.
pub open spec fn verification_spec(
    t: FrameType,
    payload: Seq<u8>,
    transfer_id: Seq<u8>,
    local_hash: Seq<u8>,
) -> Result<(), &'static str> {
    if t == FrameType::Complete {
        match parse_complete_spec(t, payload) {
            Err(e) => Err(e),
            Ok((id, h)) => if id != transfer_id {
                Err("receiver verified a different transfer ID")
            } else if h != local_hash {
                Err("BLAKE3 verification failed: sender and receiver hashes differ")
            } else {
                Ok(())
            },
        }
    } else if t == FrameType::Reject {
        match decision_from_frame_spec(t, payload) {
            Err(e) => Err(e),
            Ok((id, _)) => if id != transfer_id {
                Err("receiver rejected a different transfer ID")
            } else {
                Err("receiver reported transfer verification failure")
            },
        }
    } else {
        Err(unexpected_after_transfer_spec(t))
    }
}

/// Reads the receiver's report after the data.
pub fn check_verification(frame: &Frame, transfer_id: &[u8; 16], local_hash: &[u8; 32]) -> (r:
    Result<(), &'static str>)
    ensures
        r == verification_spec(frame.frame_type, frame.payload@, transfer_id@, local_hash@),
{
    match frame.frame_type {
        FrameType::Complete => {
            let (id, hash) = parse_complete_frame(frame)?;
            if !same_bytes(&id, transfer_id) {
                Err("receiver verified a different transfer ID")
            } else if !same_bytes(&hash, local_hash) {
                Err("BLAKE3 verification failed: sender and receiver hashes differ")
            } else {
                Ok(())
            }
        },
        FrameType::Reject => {
            let (id, _) = TransferDecision::from_frame(frame)?;
            if !same_bytes(&id, transfer_id) {
                Err("receiver rejected a different transfer ID")
            } else {
                Err("receiver reported transfer verification failure")
            }
        },
        _ => Err(unexpected_after_transfer(frame.frame_type)),
    }
}

/// How many MiB between progress reports.
pub const REPORT_STEP_MIB: u64 = 64;

/// Whether to report progress after `total` bytes: every 64 MiB past the
/// last report, and at the end.
pub open spec fn should_report_spec(total: u64, last_reported_mib: u64, file_size: u64) -> bool {
    total / 1048576 >= last_reported_mib + REPORT_STEP_MIB || total == file_size
}

/// The data of one outgoing file: its announced size, how much was sent,
/// the digest of what was sent, and where progress was last reported.
pub struct OutgoingTransfer {
    file_size: u64,
    total: u64,
    last_reported_mib: u64,
    hasher: blake3::Hasher,
}

impl OutgoingTransfer {
    /// The count of sent bytes is the length of what the hasher was fed,
    /// and the last report lies within it.
    pub closed spec fn wf(self) -> bool {
        &&& self.total == absorbed(self.hasher).len()
        &&& self.last_reported_mib <= self.total / 1048576
    }

    pub closed spec fn announced_size(self) -> u64 {
        self.file_size
    }

    /// The bytes sent so far, in order.
    pub closed spec fn sent(self) -> Seq<u8> {
        absorbed(self.hasher)
    }

    pub closed spec fn last_report(self) -> u64 {
        self.last_reported_mib
    }

    pub fn new(file_size: u64) -> (t: Self)
        ensures
            t.wf(),
            t.announced_size() == file_size,
            t.sent() == Seq::<u8>::empty(),
            t.last_report() == 0,
    {
        Self { file_size, total: 0, last_reported_mib: 0, hasher: hasher_new() }
    }

    pub fn total(&self) -> (n: u64)
        requires
            self.wf(),
        ensures
            n == self.sent().len(),
    {
        self.total
    }

    /// Records that `data` was sent, and says whether to report progress now.
    pub fn record_sent(&mut self, data: &[u8]) -> (report: bool)
        requires
            old(self).wf(),
            old(self).sent().len() + data@.len() <= u64::MAX,
        ensures
            final(self).wf(),
            final(self).announced_size() == old(self).announced_size(),
            final(self).sent() == old(self).sent() + data@,
            report == should_report_spec(
                final(self).sent().len() as u64,
                old(self).last_report(),
                old(self).announced_size(),
            ),
            report ==> final(self).last_report() == final(self).sent().len() / 1048576,
            !report ==> final(self).last_report() == old(self).last_report(),
    {
        hasher_update(&mut self.hasher, data);
        self.total = self.total + data.len() as u64;
        let current_mib = self.total / 1048576;
        let report = current_mib >= self.last_reported_mib + REPORT_STEP_MIB || self.total
            == self.file_size;
        if report {
            self.last_reported_mib = current_mib;
        }
        report
    }

    /// The digest of the sent data, once exactly the announced size was sent.
    pub fn finish(&self) -> (r: Result<[u8; 32], &'static str>)
        requires
            self.wf(),
        ensures
            self.sent().len() != self.announced_size() ==> r == Err::<[u8; 32], &'static str>(
                "local file size changed during transfer",
            ),
            self.sent().len() == self.announced_size() ==> (r matches Ok(d) && d@ == blake3_digest(
                self.sent(),
            )),
    {
        if self.total != self.file_size {
            return Err("local file size changed during transfer");
        }
        Ok(hasher_finalize(&self.hasher))
    }
}


/// The clock reading is read back from the transfer ID made of it.
pub proof fn lemma_transfer_id_encodes_nanos(nanos: u128)
    ensures
        crate::bytes::le_value(le_bytes(nanos as nat, 16)) == nanos,
{
    crate::bytes::lemma_pow256_values();
    assert(crate::bytes::pow256(16) == 0x1_0000_0000_0000_0000_0000_0000_0000_0000) by {
        reveal_with_fuel(crate::bytes::pow256, 17);
    }
    crate::bytes::lemma_le_roundtrip(nanos as nat, 16);
}

/// The sender reads the receiver's decision frame for its own transfer as
/// that decision.
pub proof fn lemma_sender_reads_decision(d: TransferDecision, transfer_id: Seq<u8>)
    requires
        transfer_id.len() == 16,
    ensures
        sender_decision_spec(
            crate::transfer::decision::decision_frame_type(d),
            transfer_id,
            transfer_id,
        ) == Ok::<TransferDecision, &'static str>(d),
{
}

/// The sender accepts the receiver's report exactly when it names the
/// sender's transfer and carries the sender's own digest.
pub proof fn lemma_verification_matches_digests(
    transfer_id: Seq<u8>,
    receiver_hash: Seq<u8>,
    local_hash: Seq<u8>,
)
    requires
        transfer_id.len() == 16,
        receiver_hash.len() == 32,
        local_hash.len() == 32,
    ensures
        verification_spec(FrameType::Complete, transfer_id + receiver_hash, transfer_id, local_hash)
            is Ok <==> receiver_hash == local_hash,
{
    crate::transfer::decision::lemma_complete_frame_roundtrip(transfer_id, receiver_hash);
}

/// A failure report for the sender's own transfer is always read as a failure.
pub proof fn lemma_rejection_is_failure(transfer_id: Seq<u8>, local_hash: Seq<u8>)
    requires
        transfer_id.len() == 16,
    ensures
        verification_spec(FrameType::Reject, transfer_id, transfer_id, local_hash) is Err,
{
}

} // verus!
