//! The transfer offer: what a sender proposes before any file data flows.
//!
//! Payload layout (integers big-endian):
//!
//! ```text
//! [ transfer_id: 16 ][ name length: 2 ][ file name: UTF-8 ]
//! [ file size: 8 ][ MIME length: 2 ][ MIME type: UTF-8 ]
//! ```

use crate::bytes::{
    append_bytes, be_bytes, copy_range, be_value, lemma_be_roundtrip, lemma_be_value_roundtrip, lemma_pow256_values, push_be,
    read_be,
};
use crate::text::string_from_utf8;
use crate::transport::protocol::{
    decode_frame_spec, encode_frame_spec, Frame, FrameType, MAX_FILE_NAME_LEN, MAX_FRAME_SIZE,
    MAX_MIME_TYPE_LEN,
};
use vstd::prelude::*;
use vstd::string::StrSliceExecFns;
use vstd::utf8::{decode_utf8, encode_utf8, encode_utf8_decode_utf8, encode_utf8_valid_utf8, valid_utf8};

verus! {

#[derive(Debug, Clone, PartialEq, Eq)]
pub struct TransferOffer {
    pub transfer_id: [u8; 16],
    pub file_name: String,
    pub file_size: u64,
    pub mime_type: String,
}

/// The abstract content of an offer.
pub struct OfferView {
    pub transfer_id: Seq<u8>,
    pub file_name: Seq<char>,
    pub file_size: u64,
    pub mime_type: Seq<char>,
}

impl View for TransferOffer {
    type V = OfferView;

    open spec fn view(&self) -> OfferView {
        OfferView {
            transfer_id: self.transfer_id@,
            file_name: self.file_name@,
            file_size: self.file_size,
            mime_type: self.mime_type@,
        }
    }
}

/// Why a file name is refused, if it is: empty, longer than
/// `MAX_FILE_NAME_LEN` bytes, holding NUL, `.` or `..`, or holding a path
/// separator. The checks are made in this order.
pub open spec fn file_name_error(name: Seq<char>) -> Option<&'static str> {
    if name.len() == 0 {
        Some("file name cannot be empty")
    } else if encode_utf8(name).len() > MAX_FILE_NAME_LEN {
        Some("file name is too long")
    } else if name.contains('\0') {
        Some("file name contains NUL byte")
    } else if name == seq!['.'] || name == seq!['.', '.'] {
        Some("invalid file name")
    } else if name.contains('/') || name.contains('\\') {
        Some("file name must not contain path separators")
    } else {
        None
    }
}

/// Why a MIME type is refused, if it is: empty, longer than
/// `MAX_MIME_TYPE_LEN` bytes, or holding NUL.
pub open spec fn mime_type_error(mime: Seq<char>) -> Option<&'static str> {
    if mime.len() == 0 {
        Some("MIME type cannot be empty")
    } else if encode_utf8(mime).len() > MAX_MIME_TYPE_LEN {
        Some("MIME type is too long")
    } else if mime.contains('\0') {
        Some("MIME type contains NUL byte")
    } else {
        None
    }
}

/// Why an offer is refused, if it is: its file name first, then its MIME type.
pub open spec fn offer_error(v: OfferView) -> Option<&'static str> {
    match file_name_error(v.file_name) {
        Some(e) => Some(e),
        None => mime_type_error(v.mime_type),
    }
}

pub open spec fn offer_valid(v: OfferView) -> bool {
    v.transfer_id.len() == 16 && offer_error(v) is None
}

pub open spec fn check_result(e: Option<&'static str>) -> Result<(), &'static str> {
    match e {
        Some(e) => Err(e),
        None => Ok(()),
    }
}

/// The payload bytes of an offer.
pub open spec fn offer_payload(v: OfferView) -> Seq<u8> {
    let nb = encode_utf8(v.file_name);
    let mb = encode_utf8(v.mime_type);
    v.transfer_id + be_bytes(nb.len(), 2) + nb + be_bytes(v.file_size as nat, 8) + be_bytes(
        mb.len(),
        2,
    ) + mb
}

/// What decoding makes of an offer payload: the offer, or the first
/// check that fails.
pub open spec fn decode_offer_spec(p: Seq<u8>) -> Result<OfferView, &'static str> {
    if p.len() < 16 {
        Err("truncated transfer ID")
    } else if p.len() < 18 {
        Err("truncated u16")
    } else {
        let n = be_value(p.subrange(16, 18)) as int;
        if n > MAX_FILE_NAME_LEN {
            Err("file name is too long")
        } else if p.len() < 18 + n {
            Err("truncated field")
        } else if !valid_utf8(p.subrange(18, 18 + n)) {
            Err("file name is not valid UTF-8")
        } else if p.len() < 26 + n {
            Err("truncated u64")
        } else if p.len() < 28 + n {
            Err("truncated u16")
        } else {
            let m = be_value(p.subrange(26 + n, 28 + n)) as int;
            if m > MAX_MIME_TYPE_LEN {
                Err("MIME type is too long")
            } else if p.len() < 28 + n + m {
                Err("truncated field")
            } else if !valid_utf8(p.subrange(28 + n, 28 + n + m)) {
                Err("MIME type is not valid UTF-8")
            } else if p.len() != 28 + n + m {
                Err("unexpected bytes after transfer offer")
            } else {
                let v = OfferView {
                    transfer_id: p.subrange(0, 16),
                    file_name: decode_utf8(p.subrange(18, 18 + n)),
                    file_size: be_value(p.subrange(18 + n, 26 + n)) as u64,
                    mime_type: decode_utf8(p.subrange(28 + n, 28 + n + m)),
                };
                match offer_error(v) {
                    Some(e) => Err(e),
                    None => Ok(v),
                }
            }
        }
    }
}

/// Checks a file name against the rules of `file_name_error`.
fn validate_file_name(name: &str) -> (r: Result<(), &'static str>)
    ensures
        r == check_result(file_name_error(name@)),
{
    if name.is_empty() {
        return Err("file name cannot be empty");
    }
    if name.as_bytes().len() > MAX_FILE_NAME_LEN {
        return Err("file name is too long");
    }
    let n = name.unicode_len();
    let mut has_nul = false;
    let mut has_separator = false;
    let mut i: usize = 0;
    while i < n
        invariant
            i <= n,
            n == name@.len(),
            has_nul <==> exists|j: int| 0 <= j < i && name@[j] == '\0',
            has_separator <==> exists|j: int| 0 <= j < i && (name@[j] == '/' || name@[j] == '\\'),
        decreases n - i,
    {
        let c = name.get_char(i);
        if c == '\0' {
            has_nul = true;
        }
        if c == '/' || c == '\\' {
            has_separator = true;
        }
        i = i + 1;
    }
    proof {
        assert(has_nul <==> name@.contains('\0')) by {
            if name@.contains('\0') {
                let j = choose|j: int| 0 <= j < name@.len() && name@[j] == '\0';
                assert(0 <= j < i && name@[j] == '\0');
            }
        }
        assert(has_separator <==> (name@.contains('/') || name@.contains('\\'))) by {
            if name@.contains('/') {
                let j = choose|j: int| 0 <= j < name@.len() && name@[j] == '/';
                assert(0 <= j < i && (name@[j] == '/' || name@[j] == '\\'));
            }
            if name@.contains('\\') {
                let j = choose|j: int| 0 <= j < name@.len() && name@[j] == '\\';
                assert(0 <= j < i && (name@[j] == '/' || name@[j] == '\\'));
            }
            if has_separator {
                let j = choose|j: int| 0 <= j < i && (name@[j] == '/' || name@[j] == '\\');
                if name@[j] == '/' {
                    assert(name@.contains('/'));
                } else {
                    assert(name@.contains('\\'));
                }
            }
        }
    }
    if has_nul {
        return Err("file name contains NUL byte");
    }
    let is_dot = n == 1 && name.get_char(0) == '.';
    let is_dot_dot = n == 2 && name.get_char(0) == '.' && name.get_char(1) == '.';
    proof {
        assert(is_dot <==> name@ == seq!['.']) by {
            if n == 1 && name@[0] == '.' {
                assert(name@ =~= seq!['.']);
            }
        }
        assert(is_dot_dot <==> name@ == seq!['.', '.']) by {
            if n == 2 && name@[0] == '.' && name@[1] == '.' {
                assert(name@ =~= seq!['.', '.']);
            }
        }
    }
    if is_dot || is_dot_dot {
        return Err("invalid file name");
    }
    if has_separator {
        return Err("file name must not contain path separators");
    }
    Ok(())
}

/// Checks a MIME type against the rules of `mime_type_error`.
fn validate_mime_type(mime_type: &str) -> (r: Result<(), &'static str>)
    ensures
        r == check_result(mime_type_error(mime_type@)),
{
    if mime_type.is_empty() {
        return Err("MIME type cannot be empty");
    }
    if mime_type.as_bytes().len() > MAX_MIME_TYPE_LEN {
        return Err("MIME type is too long");
    }
    let n = mime_type.unicode_len();
    let mut i: usize = 0;
    while i < n
        invariant
            i <= n,
            n == mime_type@.len(),
            n > 0,
            encode_utf8(mime_type@).len() <= MAX_MIME_TYPE_LEN,
            forall|j: int| 0 <= j < i ==> mime_type@[j] != '\0',
        decreases n - i,
    {
        if mime_type.get_char(i) == '\0' {
            assert(mime_type@.contains('\0'));
            return Err("MIME type contains NUL byte");
        }
        i = i + 1;
    }
    assert(!mime_type@.contains('\0')) by {
        if mime_type@.contains('\0') {
            let j = choose|j: int| 0 <= j < mime_type@.len() && mime_type@[j] == '\0';
            assert(mime_type@[j] != '\0');
        }
    }
    Ok(())
}

impl TransferOffer {
    /// Builds an offer; a file name or MIME type that the rules refuse is an error.
    pub fn new(transfer_id: [u8; 16], file_name: String, file_size: u64, mime_type: String) -> (r:
        Result<Self, &'static str>)
        ensures
            ({
                let v = OfferView {
                    transfer_id: transfer_id@,
                    file_name: file_name@,
                    file_size,
                    mime_type: mime_type@,
                };
                &&& offer_error(v) matches Some(e) ==> r == Err::<Self, &'static str>(e)
                &&& offer_error(v) is None ==> (r matches Ok(o) && o@ == v)
            }),
    {
        validate_file_name(file_name.as_str())?;
        validate_mime_type(mime_type.as_str())?;
        Ok(Self { transfer_id, file_name, file_size, mime_type })
    }

    /// The payload bytes of this offer; an offer that the rules refuse is an error.
    pub fn encode_payload(&self) -> (r: Result<Vec<u8>, &'static str>)
        ensures
            offer_error(self@) matches Some(e) ==> r == Err::<Vec<u8>, &'static str>(e),
            offer_error(self@) is None ==> (r matches Ok(bytes) && bytes@ == offer_payload(self@)),
    {
        validate_file_name(self.file_name.as_str())?;
        validate_mime_type(self.mime_type.as_str())?;
        let file_name = self.file_name.as_str().as_bytes();
        let mime_type = self.mime_type.as_str().as_bytes();
        let mut output: Vec<u8> = Vec::new();
        append_bytes(&mut output, &self.transfer_id);
        push_be(&mut output, file_name.len() as u64, 2);
        append_bytes(&mut output, file_name);
        push_be(&mut output, self.file_size, 8);
        push_be(&mut output, mime_type.len() as u64, 2);
        append_bytes(&mut output, mime_type);
        Ok(output)
    }

    /// Reads an offer from its payload bytes, which must hold nothing more.
    pub fn decode_payload(payload: &[u8]) -> (r: Result<Self, &'static str>)
        ensures
            r matches Ok(o) ==> decode_offer_spec(payload@) == Ok::<OfferView, &'static str>(o@),
            r matches Err(e) ==> decode_offer_spec(payload@) == Err::<OfferView, &'static str>(e),
    {
        let len = payload.len();
        if len < 16 {
            return Err("truncated transfer ID");
        }
        let mut transfer_id = [0u8; 16];
        let mut i: usize = 0;
        while i < 16
            invariant
                i <= 16,
                len == payload@.len(),
                len >= 16,
                forall|j: int| 0 <= j < i ==> transfer_id@[j] == payload@[j],
            decreases 16 - i,
        {
            transfer_id[i] = payload[i];
            i = i + 1;
        }
        assert(transfer_id@ =~= payload@.subrange(0, 16));
        if len < 18 {
            return Err("truncated u16");
        }
        proof {
            lemma_pow256_values();
            lemma_be_value_roundtrip(payload@.subrange(16, 18));
        }
        let file_name_len = read_be(payload, 16, 2) as usize;
        if file_name_len > MAX_FILE_NAME_LEN {
            return Err("file name is too long");
        }
        if len - 18 < file_name_len {
            return Err("truncated field");
        }
        let file_name_bytes = copy_range(payload, 18, file_name_len);
        let file_name = match string_from_utf8(file_name_bytes) {
            Some(s) => s,
            None => return Err("file name is not valid UTF-8"),
        };
        let pos = 18 + file_name_len;
        if len - pos < 8 {
            return Err("truncated u64");
        }
        proof {
            lemma_be_value_roundtrip(payload@.subrange(pos as int, pos + 8));
        }
        let file_size = read_be(payload, pos, 8);
        let pos = pos + 8;
        if len - pos < 2 {
            return Err("truncated u16");
        }
        proof {
            lemma_be_value_roundtrip(payload@.subrange(pos as int, pos + 2));
        }
        let mime_type_len = read_be(payload, pos, 2) as usize;
        if mime_type_len > MAX_MIME_TYPE_LEN {
            return Err("MIME type is too long");
        }
        let pos = pos + 2;
        if len - pos < mime_type_len {
            return Err("truncated field");
        }
        let mime_type_bytes = copy_range(payload, pos, mime_type_len);
        let mime_type = match string_from_utf8(mime_type_bytes) {
            Some(s) => s,
            None => return Err("MIME type is not valid UTF-8"),
        };
        if pos + mime_type_len != len {
            return Err("unexpected bytes after transfer offer");
        }
        Self::new(transfer_id, file_name, file_size, mime_type)
    }

    /// The offer as a `TransferOffer` frame.
    pub fn to_frame(&self) -> (r: Result<Frame, &'static str>)
        ensures
            offer_error(self@) matches Some(e) ==> r == Err::<Frame, &'static str>(e),
            offer_error(self@) is None ==> (r matches Ok(f) && f.frame_type
                == FrameType::TransferOffer && f.payload@ == offer_payload(self@)),
    {
        let payload = self.encode_payload()?;
        proof {
            lemma_offer_payload_len(self@);
        }
        Frame::new(FrameType::TransferOffer, payload)
    }

    /// Reads an offer from a frame, which must be a `TransferOffer` frame.
    pub fn from_frame(frame: &Frame) -> (r: Result<Self, &'static str>)
        ensures
            frame.frame_type != FrameType::TransferOffer ==> r == Err::<Self, &'static str>(
                "frame is not a transfer offer",
            ),
            frame.frame_type == FrameType::TransferOffer ==> (r matches Ok(o) ==> decode_offer_spec(
                frame.payload@,
            ) == Ok::<OfferView, &'static str>(o@)),
            frame.frame_type == FrameType::TransferOffer ==> (r matches Err(e) ==> decode_offer_spec(
                frame.payload@,
            ) == Err::<OfferView, &'static str>(e)),
    {
        if frame.frame_type != FrameType::TransferOffer {
            return Err("frame is not a transfer offer");
        }
        Self::decode_payload(frame.payload.as_slice())
    }
}

/// The payload of an accepted offer fits in a frame.
pub proof fn lemma_offer_payload_len(v: OfferView)
    requires
        v.transfer_id.len() == 16,
        offer_error(v) is None,
    ensures
        offer_payload(v).len() <= 16 + 2 + MAX_FILE_NAME_LEN + 8 + 2 + MAX_MIME_TYPE_LEN,
        offer_payload(v).len() <= MAX_FRAME_SIZE,
{
    crate::bytes::lemma_be_bytes_len(encode_utf8(v.file_name).len(), 2);
    crate::bytes::lemma_be_bytes_len(v.file_size as nat, 8);
    crate::bytes::lemma_be_bytes_len(encode_utf8(v.mime_type).len(), 2);
}

/// Decoding the payload of an offer that the rules accept gives the offer back.
pub proof fn lemma_offer_payload_roundtrip(v: OfferView)
    requires
        offer_valid(v),
    ensures
        decode_offer_spec(offer_payload(v)) == Ok::<OfferView, &'static str>(v),
{
    let nb = encode_utf8(v.file_name);
    let mb = encode_utf8(v.mime_type);
    let p = offer_payload(v);
    let n: int = nb.len() as int;
    let m: int = mb.len() as int;
    lemma_pow256_values();
    lemma_be_roundtrip(nb.len(), 2);
    lemma_be_roundtrip(v.file_size as nat, 8);
    lemma_be_roundtrip(mb.len(), 2);
    assert(p.subrange(0, 16) =~= v.transfer_id);
    assert(p.subrange(16, 18) =~= be_bytes(nb.len(), 2));
    assert(p.subrange(18, 18 + n) =~= nb);
    assert(p.subrange(18 + n, 26 + n) =~= be_bytes(v.file_size as nat, 8));
    assert(p.subrange(26 + n, 28 + n) =~= be_bytes(mb.len(), 2));
    assert(p.subrange(28 + n, 28 + n + m) =~= mb);
    encode_utf8_valid_utf8(v.file_name);
    encode_utf8_valid_utf8(v.mime_type);
    encode_utf8_decode_utf8(v.file_name);
    encode_utf8_decode_utf8(v.mime_type);
    let w = decode_offer_spec(p)->Ok_0;
    assert(w.transfer_id =~= v.transfer_id);
}

/// Decoding an offer frame built from an accepted offer gives the offer back.
pub proof fn lemma_offer_frame_roundtrip(v: OfferView)
    requires
        offer_valid(v),
    ensures
        decode_frame_spec(encode_frame_spec(FrameType::TransferOffer, offer_payload(v)))
            == Ok::<(FrameType, Seq<u8>), &'static str>(
            (FrameType::TransferOffer, offer_payload(v)),
        ),
        decode_offer_spec(offer_payload(v)) == Ok::<OfferView, &'static str>(v),
{
    lemma_offer_payload_len(v);
    crate::transport::protocol::lemma_frame_roundtrip(FrameType::TransferOffer, offer_payload(v));
    lemma_offer_payload_roundtrip(v);
}

/// The payload layout of an offer, field by field: the 16-byte transfer ID,
/// the file name's UTF-8 length in two bytes, the name, the file size in
/// eight bytes, the MIME type's UTF-8 length in two bytes, and the MIME
/// type, with every number big-endian.
pub proof fn lemma_offer_payload_layout(v: OfferView)
    requires
        offer_valid(v),
    ensures
        ({
            let p = offer_payload(v);
            let n = encode_utf8(v.file_name).len() as int;
            let m = encode_utf8(v.mime_type).len() as int;
            &&& p.len() == 28 + n + m
            &&& p.subrange(0, 16) == v.transfer_id
            &&& be_value(p.subrange(16, 18)) == n
            &&& p.subrange(18, 18 + n) == encode_utf8(v.file_name)
            &&& be_value(p.subrange(18 + n, 26 + n)) == v.file_size
            &&& be_value(p.subrange(26 + n, 28 + n)) == m
            &&& p.subrange(28 + n, 28 + n + m) == encode_utf8(v.mime_type)
        }),
{
    let nb = encode_utf8(v.file_name);
    let mb = encode_utf8(v.mime_type);
    let p = offer_payload(v);
    let n: int = nb.len() as int;
    let m: int = mb.len() as int;
    lemma_offer_payload_len(v);
    lemma_pow256_values();
    lemma_be_roundtrip(nb.len(), 2);
    lemma_be_roundtrip(v.file_size as nat, 8);
    lemma_be_roundtrip(mb.len(), 2);
    assert(p.subrange(0, 16) =~= v.transfer_id);
    assert(p.subrange(16, 18) =~= be_bytes(nb.len(), 2));
    assert(p.subrange(18, 18 + n) =~= nb);
    assert(p.subrange(18 + n, 26 + n) =~= be_bytes(v.file_size as nat, 8));
    assert(p.subrange(26 + n, 28 + n) =~= be_bytes(mb.len(), 2));
    assert(p.subrange(28 + n, 28 + n + m) =~= mb);
}

} // verus!
