//! The frame layer of the transfer protocol.
//!
//! A frame on the wire is one type byte, the payload length as a 32-bit
//! big-endian number, then the payload:
//!
//! ```text
//! [ type: 1 ][ payload length: 4, big-endian ][ payload ]
//! ```

use crate::bytes::{
    be_bytes, be_value, lemma_be_bytes_len, lemma_be_roundtrip, lemma_be_value_roundtrip,
    lemma_pow256_values, push_be,
    read_be,
};
use vstd::prelude::*;

verus! {

pub const PROTOCOL_VERSION: u8 = 1;

/// The application protocol name that both ends advertise during the handshake.
pub const ALPN: &'static str = "tailsfer/1";

/// The largest payload a frame may carry: one 1 MiB chunk and 4 KiB of room.
pub const MAX_FRAME_SIZE: usize = 1024 * 1024 + 4096;

pub const MAX_FILE_NAME_LEN: usize = 255;

pub const MAX_MIME_TYPE_LEN: usize = 127;

/// The length of the frame header: the type byte and the payload length.
pub const FRAME_HEADER_LEN: usize = 5;

#[derive(Debug, Clone, Copy, PartialEq, Eq, Structural)]
pub enum FrameType {
    Hello,
    Session,
    TransferOffer,
    Accept,
    Reject,
    Chunk,
    Complete,
    Cancel,
    Verified,
}

impl FrameType {
    /// The byte that stands for each frame type on the wire.
    pub open spec fn code_of(self) -> u8 {
        match self {
            FrameType::Hello => 1,
            FrameType::Session => 2,
            FrameType::TransferOffer => 3,
            FrameType::Accept => 4,
            FrameType::Reject => 5,
            FrameType::Chunk => 6,
            FrameType::Complete => 7,
            FrameType::Cancel => 8,
            FrameType::Verified => 9,
        }
    }

    /// The frame type that a wire byte stands for, if any.
    pub open spec fn from_code(b: u8) -> Option<FrameType> {
        match b {
            1 => Some(FrameType::Hello),
            2 => Some(FrameType::Session),
            3 => Some(FrameType::TransferOffer),
            4 => Some(FrameType::Accept),
            5 => Some(FrameType::Reject),
            6 => Some(FrameType::Chunk),
            7 => Some(FrameType::Complete),
            8 => Some(FrameType::Cancel),
            9 => Some(FrameType::Verified),
            _ => None,
        }
    }

    /// The wire byte of this frame type.
    pub fn as_u8(self) -> (b: u8)
        ensures
            b == self.code_of(),
    {
        match self {
            FrameType::Hello => 1,
            FrameType::Session => 2,
            FrameType::TransferOffer => 3,
            FrameType::Accept => 4,
            FrameType::Reject => 5,
            FrameType::Chunk => 6,
            FrameType::Complete => 7,
            FrameType::Cancel => 8,
            FrameType::Verified => 9,
        }
    }

    /// The frame type of a wire byte; `None` for a byte outside 1..=9.
    pub fn from_u8(value: u8) -> (r: Option<FrameType>)
        ensures
            r == FrameType::from_code(value),
    {
        match value {
            1 => Some(FrameType::Hello),
            2 => Some(FrameType::Session),
            3 => Some(FrameType::TransferOffer),
            4 => Some(FrameType::Accept),
            5 => Some(FrameType::Reject),
            6 => Some(FrameType::Chunk),
            7 => Some(FrameType::Complete),
            8 => Some(FrameType::Cancel),
            9 => Some(FrameType::Verified),
            _ => None,
        }
    }
}

/// What `FrameType::try_from` gives for each byte.
pub open spec fn frame_type_try_from(value: u8) -> Result<FrameType, &'static str> {
    match FrameType::from_code(value) {
        Some(t) => Ok(t),
        None => Err("unknown frame type"),
    }
}

impl TryFrom<u8> for FrameType {
    type Error = &'static str;

    fn try_from(value: u8) -> (r: Result<Self, Self::Error>) {
        match FrameType::from_u8(value) {
            Some(t) => Ok(t),
            None => Err("unknown frame type"),
        }
    }
}

impl vstd::std_specs::convert::TryFromSpecImpl<u8> for FrameType {
    open spec fn obeys_try_from_spec() -> bool {
        true
    }

    open spec fn try_from_spec(value: u8) -> Result<Self, Self::Error> {
        frame_type_try_from(value)
    }
}

/// Each frame type is read back from its own wire byte, and a byte that
/// stands for a frame type is that type's wire byte.
pub proof fn lemma_frame_type_code_roundtrip(t: FrameType, b: u8)
    ensures
        FrameType::from_code(t.code_of()) == Some(t),
        FrameType::from_code(b) == Some(t) ==> t.code_of() == b,
        FrameType::from_code(b) is Some <==> 1 <= b <= 9,
{
}

/// The wire byte of each frame type is fixed by the protocol: `Hello`
/// through `Verified` are 1 through 9 in that order, every other byte
/// stands for no type, and an encoded frame starts with its type's byte.
pub proof fn lemma_frame_type_wire_bytes(t: FrameType, payload: Seq<u8>)
    ensures
        FrameType::Hello.code_of() == 1,
        FrameType::Session.code_of() == 2,
        FrameType::TransferOffer.code_of() == 3,
        FrameType::Accept.code_of() == 4,
        FrameType::Reject.code_of() == 5,
        FrameType::Chunk.code_of() == 6,
        FrameType::Complete.code_of() == 7,
        FrameType::Cancel.code_of() == 8,
        FrameType::Verified.code_of() == 9,
        FrameType::from_code(1) == Some(FrameType::Hello),
        FrameType::from_code(2) == Some(FrameType::Session),
        FrameType::from_code(3) == Some(FrameType::TransferOffer),
        FrameType::from_code(4) == Some(FrameType::Accept),
        FrameType::from_code(5) == Some(FrameType::Reject),
        FrameType::from_code(6) == Some(FrameType::Chunk),
        FrameType::from_code(7) == Some(FrameType::Complete),
        FrameType::from_code(8) == Some(FrameType::Cancel),
        FrameType::from_code(9) == Some(FrameType::Verified),
        forall|b: u8| (b == 0 || b > 9) ==> #[trigger] FrameType::from_code(b) is None,
        encode_frame_spec(t, payload)[0] == t.code_of(),
        encode_frame_spec(t, payload).len() == 5 + payload.len(),
        encode_frame_spec(t, payload).subrange(5, 5 + payload.len() as int) == payload,
{
    lemma_be_bytes_len(payload.len(), 4);
    assert(encode_frame_spec(t, payload).subrange(5, 5 + payload.len() as int) =~= payload);
}

#[derive(Debug, Clone, PartialEq, Eq)]
pub struct Frame {
    pub frame_type: FrameType,
    pub payload: Vec<u8>,
}

/// The bytes of a frame with type `t` and payload `payload`.
pub open spec fn encode_frame_spec(t: FrameType, payload: Seq<u8>) -> Seq<u8> {
    seq![t.code_of()] + be_bytes(payload.len(), 4) + payload
}

/// The payload length that the header of `data` announces.
pub open spec fn announced_len(data: Seq<u8>) -> nat {
    be_value(data.subrange(1, 5))
}

/// What decoding makes of `data`: the frame type and payload, or the
/// first check that fails.
pub open spec fn decode_frame_spec(data: Seq<u8>) -> Result<(FrameType, Seq<u8>), &'static str> {
    if data.len() < 1 {
        Err("truncated frame type")
    } else if FrameType::from_code(data[0]) is None {
        Err("unknown frame type")
    } else if data.len() < 5 {
        Err("truncated frame length")
    } else if announced_len(data) > MAX_FRAME_SIZE {
        Err("frame payload exceeds maximum size")
    } else if data.len() != 5 + announced_len(data) {
        Err("frame length does not match payload")
    } else {
        Ok((FrameType::from_code(data[0]).unwrap(), data.subrange(5, data.len() as int)))
    }
}

impl Frame {
    /// Builds a frame; a payload longer than `MAX_FRAME_SIZE` is refused.
    pub fn new(frame_type: FrameType, payload: Vec<u8>) -> (r: Result<Self, &'static str>)
        ensures
            payload@.len() > MAX_FRAME_SIZE ==> r == Err::<Self, &'static str>(
                "frame payload exceeds maximum size",
            ),
            payload@.len() <= MAX_FRAME_SIZE ==> (r matches Ok(f) && f.frame_type == frame_type
                && f.payload@ == payload@),
    {
        if payload.len() > MAX_FRAME_SIZE {
            return Err("frame payload exceeds maximum size");
        }
        Ok(Self { frame_type, payload })
    }

    /// The wire bytes of this frame; refused when the payload is longer
    /// than `MAX_FRAME_SIZE`.
    pub fn encode(&self) -> (r: Result<Vec<u8>, &'static str>)
        ensures
            self.payload@.len() > MAX_FRAME_SIZE ==> r == Err::<Vec<u8>, &'static str>(
                "frame payload exceeds maximum size",
            ),
            self.payload@.len() <= MAX_FRAME_SIZE ==> (r matches Ok(bytes) && bytes@
                == encode_frame_spec(self.frame_type, self.payload@)),
    {
        if self.payload.len() > MAX_FRAME_SIZE {
            return Err("frame payload exceeds maximum size");
        }
        let payload_len = self.payload.len() as u64;
        let mut output: Vec<u8> = Vec::new();
        output.push(self.frame_type.as_u8());
        push_be(&mut output, payload_len, 4);
        let mut i: usize = 0;
        while i < self.payload.len()
            invariant
                i <= self.payload@.len(),
                output@ == seq![self.frame_type.code_of()] + be_bytes(self.payload@.len(), 4)
                    + self.payload@.subrange(0, i as int),
            decreases self.payload@.len() - i,
        {
            output.push(self.payload[i]);
            i = i + 1;
            assert(output@ == seq![self.frame_type.code_of()] + be_bytes(self.payload@.len(), 4)
                + self.payload@.subrange(0, i as int));
        }
        assert(self.payload@.subrange(0, self.payload@.len() as int) =~= self.payload@);
        Ok(output)
    }

    /// Reads one whole frame from `data`, which must hold exactly one frame.
    pub fn decode(data: &[u8]) -> (r: Result<Self, &'static str>)
        ensures
            r matches Ok(f) ==> decode_frame_spec(data@) == Ok::<(FrameType, Seq<u8>), &'static str>(
                (f.frame_type, f.payload@),
            ),
            r matches Err(e) ==> decode_frame_spec(data@) == Err::<(FrameType, Seq<u8>), &'static str>(
                e,
            ),
    {
        if data.len() < 1 {
            return Err("truncated frame type");
        }
        let frame_type = match FrameType::from_u8(data[0]) {
            Some(t) => t,
            None => return Err("unknown frame type"),
        };
        if data.len() < 5 {
            return Err("truncated frame length");
        }
        let payload_len = read_be(data, 1, 4);
        proof {
            lemma_be_value_roundtrip(data@.subrange(1, 5));
            lemma_pow256_values();
        }
        if payload_len > MAX_FRAME_SIZE as u64 {
            return Err("frame payload exceeds maximum size");
        }
        let payload_len = payload_len as usize;
        if data.len() != 5 + payload_len {
            return Err("frame length does not match payload");
        }
        let mut payload: Vec<u8> = Vec::new();
        let mut i: usize = 5;
        while i < data.len()
            invariant
                5 <= i <= data@.len(),
                payload@ == data@.subrange(5, i as int),
            decreases data@.len() - i,
        {
            payload.push(data[i]);
            i = i + 1;
            assert(payload@ =~= data@.subrange(5, i as int));
        }
        Ok(Self { frame_type, payload })
    }
}

/// Decoding the encoding of a frame whose payload fits gives the frame back.
pub proof fn lemma_frame_roundtrip(t: FrameType, payload: Seq<u8>)
    requires
        payload.len() <= MAX_FRAME_SIZE,
    ensures
        decode_frame_spec(encode_frame_spec(t, payload)) == Ok::<(FrameType, Seq<u8>), &'static str>(
            (t, payload),
        ),
{
    let data = encode_frame_spec(t, payload);
    lemma_pow256_values();
    lemma_be_roundtrip(payload.len(), 4);
    assert(data.subrange(1, 5) =~= be_bytes(payload.len(), 4));
    assert(data.subrange(5, data.len() as int) =~= payload);
    lemma_frame_type_code_roundtrip(t, t.code_of());
}

/// Every byte string that decodes is the encoding of what it decodes to:
/// a frame has exactly one encoding.
pub proof fn lemma_frame_canonical(data: Seq<u8>)
    requires
        decode_frame_spec(data) is Ok,
    ensures
        encode_frame_spec(decode_frame_spec(data)->Ok_0.0, decode_frame_spec(data)->Ok_0.1)
            == data,
{
    let (t, p) = decode_frame_spec(data)->Ok_0;
    lemma_be_value_roundtrip(data.subrange(1, 5));
    lemma_frame_type_code_roundtrip(t, data[0]);
    assert(p.len() == announced_len(data));
    assert(encode_frame_spec(t, p) =~= data);
}

} // verus!
