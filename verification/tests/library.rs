use tailsfer_core::crypto::encryption::{decrypt, encrypt_with_nonce, generate_key, parse_hex_key};
use tailsfer_core::identity::DeviceIdentity;
use tailsfer_core::receiver::{
    check_stored_name, decide, frame_payload_len, outcome_frame, safe_filename, temp_file_name,
    IncomingTransfer, ReceivePolicy,
};
use tailsfer_core::rendezvous::client::{
    answer_line, heartbeat_request, lookup_request, parse_heartbeat_answer, parse_lookup_answer,
    parse_register_answer, register_request, RendezvousError,
};
use tailsfer_core::rendezvous::server::{
    parse_command, split_words, valid_device_id, Command, Registry, REGISTRATION_TTL_MS,
};
use tailsfer_core::sender::{
    check_decision, check_verification, detect_mime, mime_for_extension, transfer_id_from_nanos,
    OutgoingTransfer,
};
use tailsfer_core::text::{eq_ignore_ascii_case, same_text, starts_with, to_hex_lower};
use tailsfer_core::transfer::chunk::ChunkInfo;
use tailsfer_core::transfer::decision::{
    complete_frame, parse_complete_frame, verified_frame, TransferDecision, TransferSession,
    TransferState,
};
use tailsfer_core::transfer::format::{FileHeader, HeaderError, HEADER_SIZE};
use tailsfer_core::transfer::offer::TransferOffer;
use tailsfer_core::transfer::packer;
use tailsfer_core::transfer::pipeline;
use tailsfer_core::transport::protocol::{Frame, FrameType, MAX_FRAME_SIZE};

fn compressible(len: usize) -> Vec<u8> {
    b"abcabcabcabc tailsfer ".iter().cycle().take(len).cloned().collect()
}

fn noisy(len: usize) -> Vec<u8> {
    let mut x: u32 = 0x1234_5678;
    (0..len)
        .map(|_| {
            x ^= x << 13;
            x ^= x >> 17;
            x ^= x << 5;
            (x & 0xff) as u8
        })
        .collect()
}

// ---- frames ----

#[test]
fn frame_encoding_layout() {
    let frame = Frame::new(FrameType::Complete, vec![9, 8, 7]).unwrap();
    assert_eq!(frame.encode().unwrap(), vec![7, 0, 0, 0, 3, 9, 8, 7]);
}

#[test]
fn every_frame_type_roundtrips_through_bytes() {
    let types = [
        FrameType::Hello,
        FrameType::Session,
        FrameType::TransferOffer,
        FrameType::Accept,
        FrameType::Reject,
        FrameType::Chunk,
        FrameType::Complete,
        FrameType::Cancel,
        FrameType::Verified,
    ];
    for t in types {
        let frame = Frame::new(t, vec![1, 2, 3, 4, 5]).unwrap();
        let bytes = frame.encode().unwrap();
        let decoded = Frame::decode(&bytes).unwrap();
        assert_eq!(decoded, frame);
        assert_eq!(FrameType::from_u8(t.as_u8()), Some(t));
    }
}

#[test]
fn decoded_frame_reencodes_to_same_bytes() {
    let bytes = vec![4u8, 0, 0, 0, 2, 0xaa, 0xbb];
    let frame = Frame::decode(&bytes).unwrap();
    assert_eq!(frame.encode().unwrap(), bytes);
}

#[test]
fn frame_decode_errors() {
    assert_eq!(Frame::decode(&[]), Err("truncated frame type"));
    assert_eq!(Frame::decode(&[0, 0, 0, 0, 0]), Err("unknown frame type"));
    assert_eq!(Frame::decode(&[3, 0, 0]), Err("truncated frame length"));
    assert_eq!(
        Frame::decode(&[3, 0, 0x10, 0x10, 0x01]),
        Err("frame payload exceeds maximum size")
    );
    assert_eq!(Frame::decode(&[3, 0, 0, 0, 2, 1]), Err("frame length does not match payload"));
    assert_eq!(FrameType::try_from(11u8), Err("unknown frame type"));
}

#[test]
fn largest_payload_is_accepted() {
    let frame = Frame::new(FrameType::Chunk, vec![0u8; MAX_FRAME_SIZE]).unwrap();
    let bytes = frame.encode().unwrap();
    assert_eq!(bytes.len(), MAX_FRAME_SIZE + 5);
    let oversized = Frame { frame_type: FrameType::Chunk, payload: vec![0u8; MAX_FRAME_SIZE + 1] };
    assert_eq!(oversized.encode(), Err("frame payload exceeds maximum size"));
}

// ---- offers ----

fn offer(name: &str, mime: &str) -> Result<TransferOffer, &'static str> {
    TransferOffer::new([5u8; 16], name.to_string(), 77, mime.to_string())
}

#[test]
fn offer_payload_layout() {
    let o = offer("ab", "t/x").unwrap();
    let mut expected = vec![5u8; 16];
    expected.extend_from_slice(&[0, 2, b'a', b'b']);
    expected.extend_from_slice(&[0, 0, 0, 0, 0, 0, 0, 77]);
    expected.extend_from_slice(&[0, 3, b't', b'/', b'x']);
    assert_eq!(o.encode_payload().unwrap(), expected);
}

#[test]
fn unicode_offer_roundtrips() {
    let o = offer("résumé – 日本.pdf", "application/pdf").unwrap();
    let decoded = TransferOffer::decode_payload(&o.encode_payload().unwrap()).unwrap();
    assert_eq!(decoded, o);
}

#[test]
fn offer_validation_errors() {
    assert_eq!(offer("", "a/b"), Err("file name cannot be empty"));
    assert_eq!(offer(&"x".repeat(256), "a/b"), Err("file name is too long"));
    assert!(offer(&"x".repeat(255), "a/b").is_ok());
    assert_eq!(offer("a\0b", "a/b"), Err("file name contains NUL byte"));
    assert_eq!(offer(".", "a/b"), Err("invalid file name"));
    assert_eq!(offer("..", "a/b"), Err("invalid file name"));
    assert!(offer("...", "a/b").is_ok());
    assert_eq!(offer("a/b", "a/b"), Err("file name must not contain path separators"));
    assert_eq!(offer("a\\b", "a/b"), Err("file name must not contain path separators"));
    assert_eq!(offer("a", ""), Err("MIME type cannot be empty"));
    assert_eq!(offer("a", &"m".repeat(128)), Err("MIME type is too long"));
    assert_eq!(offer("a", "x\0"), Err("MIME type contains NUL byte"));
}

#[test]
fn offer_decode_errors() {
    let good = offer("ab", "t/x").unwrap().encode_payload().unwrap();
    assert_eq!(TransferOffer::decode_payload(&good[..10]), Err("truncated transfer ID"));
    assert_eq!(TransferOffer::decode_payload(&good[..17]), Err("truncated u16"));
    assert_eq!(TransferOffer::decode_payload(&good[..19]), Err("truncated field"));
    assert_eq!(TransferOffer::decode_payload(&good[..25]), Err("truncated u64"));
    assert_eq!(TransferOffer::decode_payload(&good[..29]), Err("truncated u16"));
    assert_eq!(TransferOffer::decode_payload(&good[..31]), Err("truncated field"));
    let mut extra = good.clone();
    extra.push(0);
    assert_eq!(
        TransferOffer::decode_payload(&extra),
        Err("unexpected bytes after transfer offer")
    );
    let mut long_name = good.clone();
    long_name[16] = 1;
    assert_eq!(TransferOffer::decode_payload(&long_name), Err("file name is too long"));
    let mut bad_utf8 = good.clone();
    bad_utf8[18] = 0xff;
    assert_eq!(TransferOffer::decode_payload(&bad_utf8), Err("file name is not valid UTF-8"));
    let mut bad_mime = good.clone();
    bad_mime[30] = 0xc3;
    assert_eq!(TransferOffer::decode_payload(&bad_mime), Err("MIME type is not valid UTF-8"));
    let mut long_mime = good.clone();
    long_mime[28] = 1;
    assert_eq!(TransferOffer::decode_payload(&long_mime), Err("MIME type is too long"));
    let mut dot_name = good.clone();
    dot_name[18] = b'.';
    dot_name[19] = b'.';
    assert_eq!(TransferOffer::decode_payload(&dot_name), Err("invalid file name"));
    let invalid = TransferOffer {
        transfer_id: [0; 16],
        file_name: "..".to_string(),
        file_size: 1,
        mime_type: "a".to_string(),
    };
    assert_eq!(invalid.encode_payload(), Err("invalid file name"));
    assert_eq!(invalid.to_frame(), Err("invalid file name"));
}

#[test]
fn offer_from_wrong_frame_names_error() {
    let frame = Frame::new(FrameType::Hello, vec![]).unwrap();
    assert_eq!(TransferOffer::from_frame(&frame), Err("frame is not a transfer offer"));
}

// ---- decisions and sessions ----

#[test]
fn decision_frame_errors() {
    let frame = Frame::new(FrameType::Complete, vec![0; 16]).unwrap();
    assert_eq!(TransferDecision::from_frame(&frame), Err("frame is not an accept/reject decision"));
    let frame = Frame::new(FrameType::Accept, vec![0; 15]).unwrap();
    assert_eq!(
        TransferDecision::from_frame(&frame),
        Err("invalid transfer decision payload length")
    );
    let frame = Frame::new(FrameType::Verified, vec![0; 48]).unwrap();
    assert_eq!(parse_complete_frame(&frame), Err("frame is not a complete frame"));
    assert_eq!(TransferDecision::Reject.frame_type(), FrameType::Reject);
}

#[test]
fn complete_frame_layout() {
    let frame = complete_frame([1; 16], [2; 32]).unwrap();
    let mut expected = vec![1u8; 16];
    expected.extend_from_slice(&[2u8; 32]);
    assert_eq!(frame.payload, expected);
    assert_eq!(verified_frame([3; 16]).unwrap().payload, vec![3u8; 16]);
}

#[test]
fn finished_transfers_refuse_every_operation() {
    let mut rejected = TransferSession::new();
    rejected.reject().unwrap();
    assert_eq!(rejected.accept(), Err("transfer cannot be accepted in current state"));
    assert_eq!(rejected.cancel(), Err("transfer cannot be cancelled"));
    assert_eq!(rejected.state(), TransferState::Rejected);

    let mut done = TransferSession::default();
    done.accept().unwrap();
    done.begin_receiving().unwrap();
    done.complete().unwrap();
    assert_eq!(done.reject(), Err("transfer cannot be rejected in current state"));
    assert_eq!(done.begin_receiving(), Err("transfer has not been accepted"));
    assert_eq!(done.complete(), Err("transfer cannot be completed"));
    assert_eq!(done.state(), TransferState::Completed);
}

#[test]
fn data_needs_acceptance() {
    let mut session = TransferSession::new();
    assert_eq!(session.begin_receiving(), Err("transfer has not been accepted"));
    assert_eq!(session.state(), TransferState::Offered);
    session.cancel().unwrap();
    assert_eq!(session.state(), TransferState::Cancelled);
    assert!(!session.state().can_receive_chunks());
}

// ---- file header ----

#[test]
fn header_layout_and_errors() {
    let mut out = vec![0xee];
    FileHeader::new(0x0102, 3).write_to(&mut out).unwrap();
    let mut expected = vec![0xee];
    expected.extend_from_slice(b"TLSFR001");
    expected.extend_from_slice(&[1, 0, 0, 0]);
    expected.extend_from_slice(&[2, 1, 0, 0, 0, 0, 0, 0]);
    expected.extend_from_slice(&[3, 0, 0, 0, 0, 0, 0, 0]);
    assert_eq!(out, expected);
    assert_eq!(out.len(), 1 + HEADER_SIZE);

    let mut trailing = out[1..].to_vec();
    trailing.extend_from_slice(b"rest");
    assert_eq!(FileHeader::read_from(&trailing), Ok(FileHeader::new(0x0102, 3)));
    assert_eq!(FileHeader::read_from(b"TLSFR"), Err(HeaderError::UnexpectedEof));
    assert_eq!(FileHeader::read_from(b"NOTTAILSFER_AT_ALL_12345678901"), Err(HeaderError::InvalidData));
    assert_eq!(FileHeader::read_from(b"TLSFR001\x01\x00"), Err(HeaderError::UnexpectedEof));
}

#[test]
fn chunk_info_keeps_low_bits() {
    let c = ChunkInfo::new(7, 1024);
    assert_eq!(c.index, 7);
    assert_eq!(c.plaintext_len, 1024);
    let big = ChunkInfo::new(0, (u32::MAX as usize) + 3);
    assert_eq!(big.plaintext_len, 2);
}

// ---- keys ----

#[test]
fn hex_key_forms() {
    let printed = to_hex_lower(&[0xab; 32]);
    assert_eq!(parse_hex_key(&printed).unwrap(), [0xab; 32]);
    let upper = "AB".repeat(32);
    assert_eq!(parse_hex_key(&format!("  {upper}\n")).unwrap(), [0xab; 32]);
    let signed = "+f".repeat(32);
    assert_eq!(parse_hex_key(&signed).unwrap(), [0x0f; 32]);
    assert_eq!(
        parse_hex_key("abcd").unwrap_err(),
        "key must contain exactly 64 hexadecimal characters"
    );
    let bad = format!("{}zz", "0".repeat(62));
    assert_eq!(parse_hex_key(&bad).unwrap_err(), "key contains invalid hexadecimal characters");
    assert!(parse_hex_key(&"-1".repeat(32)).is_err());
}

#[test]
fn encryption_with_given_nonce() {
    let key = [7u8; 32];
    let nonce = [1u8; 12];
    let (ct, n) = encrypt_with_nonce(&key, nonce, b"hello").unwrap();
    assert_eq!(n, nonce);
    assert_eq!(ct.len(), 5 + 16);
    assert_ne!(&ct[..5], b"hello");
    let (again, _) = encrypt_with_nonce(&key, nonce, b"hello").unwrap();
    assert_eq!(ct, again);
    assert_eq!(decrypt(&key, &nonce, &ct).unwrap(), b"hello");
    assert_eq!(decrypt(&[8u8; 32], &nonce, &ct).unwrap_err(), "authentication failed");
    assert_eq!(decrypt(&key, &nonce, &[1, 2, 3]).unwrap_err(), "authentication failed");
}

// ---- identity ----

#[test]
fn identity_storage_roundtrip() {
    let ident = DeviceIdentity { device_id: [0x1f; 16], private_key: [9; 32] };
    let bytes = ident.to_bytes();
    assert_eq!(bytes.len(), 48);
    let back = DeviceIdentity::from_bytes(&bytes).unwrap();
    assert_eq!(back.device_id, ident.device_id);
    assert_eq!(back.private_key, ident.private_key);
    assert_eq!(
        DeviceIdentity::from_bytes(&bytes[..47]).unwrap_err(),
        "invalid Tailsfer identity file"
    );
    assert_eq!(ident.device_id_hex(), "1f".repeat(16));
    let (loaded, fresh) = DeviceIdentity::load_or_create(Some(&bytes)).unwrap();
    assert!(!fresh);
    assert_eq!(loaded.private_key, [9; 32]);
    let (_, fresh) = DeviceIdentity::load_or_create(None).unwrap();
    assert!(fresh);
    assert!(DeviceIdentity::load_or_create(Some(&[1, 2])).is_err());
    let a = DeviceIdentity::generate();
    let b = DeviceIdentity::generate();
    assert_ne!(a.private_key, b.private_key);
    assert_ne!(generate_key(), generate_key());
}

// ---- text ----

#[test]
fn text_helpers() {
    assert_eq!(to_hex_lower(&[0x00, 0x9a, 0xff]), "009aff");
    assert!(eq_ignore_ascii_case("AuTo", "auto"));
    assert!(!eq_ignore_ascii_case("autos", "auto"));
    assert!(starts_with("FOUND x", "FOUND "));
    assert!(!starts_with("FOUN", "FOUND "));
    assert!(same_text("é", "é"));
    assert!(!same_text("e", "é"));
}

// ---- packer ----

#[test]
fn packer_choices() {
    assert!(!packer::should_compress(&compressible(4095)));
    assert!(packer::should_compress(&compressible(4096)));
    assert!(!packer::should_compress(&noisy(10_000)));
    assert!(packer::compression_worthwhile(100, 90));
    assert!(!packer::compression_worthwhile(100, 96));
    assert!(!packer::compression_worthwhile(100, 100));

    let (c, v) = packer::pack_chunk(&compressible(100)).unwrap();
    assert_eq!(c, packer::Compression::Stored);
    assert_eq!(v, compressible(100));

    let data = compressible(50_000);
    let (c, v) = packer::pack_chunk(&data).unwrap();
    assert_eq!(c, packer::Compression::Zstd);
    assert!(v.len() < data.len());
    assert_eq!(zstd::stream::decode_all(&v[..]).unwrap(), data);

    let (c, _) = packer::pack_chunk(&noisy(50_000)).unwrap();
    assert_eq!(c, packer::Compression::Stored);

    let (c, v) = packer::select_packing(b"abc", vec![1, 2, 3, 4]);
    assert_eq!((c, v), (packer::Compression::Stored, b"abc".to_vec()));
}

#[test]
fn pack_reader_packs_each_chunk() {
    let mut input = compressible(1024 * 1024);
    input.extend_from_slice(&noisy(100));
    let mut out = vec![0x55];
    let total = packer::pack_reader(&input, &mut out).unwrap();
    assert_eq!(total, input.len() as u64);
    let (_, first) = packer::pack_chunk(&input[..1024 * 1024]).unwrap();
    let mut expected = vec![0x55];
    expected.extend_from_slice(&first);
    expected.extend_from_slice(&input[1024 * 1024..]);
    assert_eq!(out, expected);

    let mut empty_out = Vec::new();
    assert_eq!(packer::pack_reader(&[], &mut empty_out).unwrap(), 0);
    assert!(empty_out.is_empty());
}

// ---- pipeline ----

#[test]
fn pipeline_roundtrips_both_kinds() {
    let key = [3u8; 32];
    let text = compressible(20_000);
    let (ct, c, nonce) = pipeline::pack_chunk(&key, &text).unwrap();
    assert_eq!(c, pipeline::Compression::Zstd);
    assert!(ct.len() < text.len());
    assert_eq!(pipeline::unpack_chunk(&key, &ct, &nonce, c).unwrap(), text);

    let noise = noisy(3000);
    let (ct, c, nonce) = pipeline::pack_chunk(&key, &noise).unwrap();
    assert_eq!(c, pipeline::Compression::Stored);
    assert_eq!(ct.len(), noise.len() + 16);
    assert_eq!(pipeline::unpack_chunk(&key, &ct, &nonce, c).unwrap(), noise);

    assert_eq!(
        pipeline::unpack_chunk(&[4u8; 32], &ct, &nonce, c).unwrap_err(),
        "authentication failed"
    );
    let err = pipeline::unpack_chunk(&key, &ct, &nonce, pipeline::Compression::Zstd).unwrap_err();
    assert!(err.starts_with("decompression failed: "));
    assert_eq!(pipeline::Compression::Zstd.as_u8(), 1);
    assert_eq!(pipeline::Compression::Stored.as_u8(), 0);
}

#[test]
fn process_reader_writes_records() {
    let key = [6u8; 32];
    let mut input = compressible(1024 * 1024);
    input.extend_from_slice(b"tail");
    let mut out = Vec::new();
    let total = pipeline::process_reader(&input, &mut out, &key).unwrap();
    assert_eq!(total, input.len() as u64);

    let mut pos = 0;
    let mut recovered = Vec::new();
    while pos < out.len() {
        let len = u32::from_be_bytes([out[pos], out[pos + 1], out[pos + 2], out[pos + 3]]) as usize;
        let c = if out[pos + 4] == 1 {
            pipeline::Compression::Zstd
        } else {
            pipeline::Compression::Stored
        };
        let mut nonce = [0u8; 12];
        nonce.copy_from_slice(&out[pos + 5..pos + 17]);
        let ct = &out[pos + 17..pos + 17 + len];
        recovered.extend(pipeline::unpack_chunk(&key, ct, &nonce, c).unwrap());
        pos += 17 + len;
    }
    assert_eq!(pos, out.len());
    assert_eq!(recovered, input);
}

// ---- receiver ----

#[test]
fn receive_policy_and_decisions() {
    assert_eq!(ReceivePolicy::from_setting(Some("AUTO")), ReceivePolicy::Auto);
    assert_eq!(ReceivePolicy::from_setting(Some("auto ")), ReceivePolicy::Manual);
    assert_eq!(ReceivePolicy::from_setting(None), ReceivePolicy::Manual);
    assert_eq!(ReceivePolicy::Auto.name(), "auto");
    assert_eq!(ReceivePolicy::Manual.name(), "manual");
    assert_eq!(decide(ReceivePolicy::Auto, "no"), TransferDecision::Accept);
    assert_eq!(decide(ReceivePolicy::Manual, " Y \n"), TransferDecision::Accept);
    assert_eq!(decide(ReceivePolicy::Manual, "yes"), TransferDecision::Reject);
    assert_eq!(decide(ReceivePolicy::Manual, ""), TransferDecision::Reject);
}

#[test]
fn stored_names() {
    assert_eq!(safe_filename("report.pdf").unwrap(), "report.pdf");
    assert_eq!(safe_filename("dir/inner.txt").unwrap(), "inner.txt");
    assert_eq!(safe_filename(".."), Err("invalid filename"));
    assert_eq!(safe_filename(""), Err("invalid filename"));
    assert_eq!(safe_filename("a\0b"), Err("filename contains NUL byte"));
    assert_eq!(check_stored_name(String::new()), Err("empty filename"));
    assert_eq!(check_stored_name(".".to_string()), Err("invalid filename"));
    assert_eq!(safe_filename("../evil.txt").unwrap(), "evil.txt");
    assert_eq!(check_stored_name("a/b".to_string()), Err("invalid filename"));
    assert_eq!(check_stored_name("a\\b".to_string()), Err("invalid filename"));
    assert_eq!(check_stored_name("a\0/b".to_string()), Err("filename contains NUL byte"));
    assert_eq!(
        temp_file_name("a.bin", &[0xab; 16]),
        format!(".a.bin.{}.tailsfer.part", "ab".repeat(16))
    );
}

#[test]
fn frame_header_lengths() {
    assert_eq!(frame_payload_len(&[3, 0, 0, 1, 0], "frame payload too large"), Ok(256));
    assert_eq!(frame_payload_len(&[3, 0, 0x10, 0x10, 0x00], "frame payload too large"), Ok(MAX_FRAME_SIZE));
    assert_eq!(
        frame_payload_len(&[3, 0, 0x10, 0x10, 0x01], "frame payload too large"),
        Err("frame payload too large")
    );
    assert_eq!(
        frame_payload_len(&[3, 0xff, 0, 0, 0], "offer frame too large"),
        Err("offer frame too large")
    );
}

#[test]
fn outcome_frames() {
    let ok = outcome_frame([1; 16], Some([2; 32])).unwrap();
    assert_eq!(ok.frame_type, FrameType::Complete);
    assert_eq!(parse_complete_frame(&ok).unwrap(), ([1; 16], [2; 32]));
    let failed = outcome_frame([1; 16], None).unwrap();
    assert_eq!(failed.frame_type, FrameType::Reject);
    assert_eq!(failed.payload, vec![1u8; 16]);
}

#[test]
fn incoming_transfer_tracks_size_and_digest() {
    let mut t = IncomingTransfer::new(10);
    t.receive(b"hello").unwrap();
    assert_eq!(t.total(), 5);
    assert_eq!(t.finish(), Err("transfer size mismatch"));
    assert_eq!(t.receive(b"toolong"), Err("received more data than expected"));
    assert_eq!(t.total(), 5);
    t.receive(b"world").unwrap();
    let (n, digest) = t.finish().unwrap();
    assert_eq!(n, 10);
    assert_eq!(digest, *blake3::hash(b"helloworld").as_bytes());
}

// ---- sender ----

#[test]
fn transfer_ids_and_mime_types() {
    let nanos: u128 = 0x0f0e0d0c0b0a0908_0706050403020100;
    let id = transfer_id_from_nanos(nanos);
    assert_eq!(id, [0, 1, 2, 3, 4, 5, 6, 7, 8, 9, 10, 11, 12, 13, 14, 15]);
    assert_eq!(u128::from_le_bytes(id), nanos);
    assert_eq!(mime_for_extension("JPG"), "image/jpeg");
    assert_eq!(mime_for_extension("jpeg"), "image/jpeg");
    assert_eq!(mime_for_extension("Txt"), "text/plain");
    assert_eq!(mime_for_extension("exe"), "application/octet-stream");
    assert_eq!(detect_mime("photos/a.PNG"), "image/png");
    assert_eq!(detect_mime("song.mp3"), "audio/mpeg");
    assert_eq!(detect_mime("archive.tar.zip"), "application/zip");
    assert_eq!(detect_mime("README"), "application/octet-stream");
    assert_eq!(detect_mime(".pdf"), "application/octet-stream");
}

#[test]
fn sender_reads_answers() {
    let id = [4u8; 16];
    let accept = TransferDecision::Accept.to_frame(id).unwrap();
    assert_eq!(check_decision(&accept, &id), Ok(TransferDecision::Accept));
    let reject = TransferDecision::Reject.to_frame(id).unwrap();
    assert_eq!(check_decision(&reject, &id), Ok(TransferDecision::Reject));
    assert_eq!(check_decision(&accept, &[5; 16]), Err("receiver accepted a different transfer ID"));
    assert_eq!(check_decision(&reject, &[5; 16]), Err("receiver rejected a different transfer ID"));
    let other = Frame::new(FrameType::Hello, vec![]).unwrap();
    assert_eq!(check_decision(&other, &id), Err("unexpected frame received instead of decision"));

    let hash = [9u8; 32];
    let report = complete_frame(id, hash).unwrap();
    assert_eq!(check_verification(&report, &id, &hash), Ok(()));
    assert_eq!(
        check_verification(&report, &id, &[8; 32]),
        Err("BLAKE3 verification failed: sender and receiver hashes differ")
    );
    assert_eq!(
        check_verification(&report, &[0; 16], &hash),
        Err("receiver verified a different transfer ID")
    );
    assert_eq!(
        check_verification(&reject, &id, &hash),
        Err("receiver reported transfer verification failure")
    );
    assert_eq!(
        check_verification(&other, &id, &hash),
        Err("unexpected frame received after transfer: Hello")
    );
}

#[test]
fn outgoing_transfer_reports_and_digests() {
    let mib = 1024 * 1024;
    let mut t = OutgoingTransfer::new(130 * mib as u64);
    let block = vec![1u8; mib];
    let mut reports = Vec::new();
    for i in 1..=130 {
        if t.record_sent(&block) {
            reports.push(i);
        }
    }
    assert_eq!(reports, vec![64, 128, 130]);
    assert_eq!(t.total(), 130 * mib as u64);
    let digest = t.finish().unwrap();
    assert_eq!(digest, *blake3::hash(&vec![1u8; 130 * mib]).as_bytes());

    let mut short = OutgoingTransfer::new(10);
    short.record_sent(b"abc");
    assert_eq!(short.finish(), Err("local file size changed during transfer"));
}

// ---- rendezvous ----

#[test]
fn client_lines() {
    assert_eq!(register_request("ab", "1.2.3.4:5"), "REGISTER ab 1.2.3.4:5");
    assert_eq!(heartbeat_request("ab"), "HEARTBEAT ab");
    assert_eq!(lookup_request("ab"), "LOOKUP ab");
    assert_eq!(answer_line("OK registered\r\n").unwrap(), "OK registered");
    match answer_line("") {
        Err(RendezvousError::Protocol(m)) => assert_eq!(m, "rendezvous server closed connection"),
        other => panic!("unexpected {other:?}"),
    }
    assert!(parse_register_answer("OK registered").is_ok());
    assert!(parse_heartbeat_answer("OK heartbeat").is_ok());
    match parse_heartbeat_answer("ERROR not-registered") {
        Err(RendezvousError::Protocol(m)) => assert_eq!(m, "ERROR not-registered"),
        other => panic!("unexpected {other:?}"),
    }
    assert!(matches!(parse_lookup_answer("NOT_FOUND"), Ok(None)));
    assert_eq!(parse_lookup_answer("FOUND 10.0.0.2:47691").unwrap(), Some("10.0.0.2:47691".to_string()));
    match parse_lookup_answer("FOUN") {
        Err(RendezvousError::Protocol(m)) => assert_eq!(m, "FOUN"),
        other => panic!("unexpected {other:?}"),
    }
}

#[test]
fn server_parses_commands() {
    assert_eq!(split_words("  a \t bc\n"), vec!["a".to_string(), "bc".to_string()]);
    assert!(split_words(" \u{3000} ").is_empty());
    assert!(matches!(parse_command("   "), Command::Blank));
    assert!(matches!(parse_command("PING extra"), Command::Ping));
    assert!(matches!(parse_command("REGISTER a"), Command::Invalid));
    assert!(matches!(parse_command("register a b"), Command::Invalid));
    match parse_command("REGISTER dev 1.2.3.4:5\n") {
        Command::Register { device_id, endpoint } => {
            assert_eq!(device_id, "dev");
            assert_eq!(endpoint, "1.2.3.4:5");
        }
        _ => panic!("not a register command"),
    }
    assert!(matches!(parse_command("LOOKUP x"), Command::Lookup { .. }));
    assert!(matches!(parse_command("HEARTBEAT x"), Command::Heartbeat { .. }));
    assert!(valid_device_id(&"aB".repeat(16)));
    assert!(!valid_device_id(&"ab".repeat(15)));
    assert!(!valid_device_id(&"zz".repeat(16)));
}

#[test]
fn registry_flow() {
    let id = "0123456789abcdef0123456789ABCDEF";
    let mut reg = Registry::new();
    assert_eq!(reg.lookup(id, 0, REGISTRATION_TTL_MS), "NOT_FOUND\n");
    assert_eq!(reg.heartbeat(id, 0), "ERROR not-registered\n");
    assert_eq!(reg.register("bad", "1.1.1.1:1", 0), "ERROR invalid-device-id\n");
    assert_eq!(reg.register(id, "1.1.1.1:1", 1000), "OK registered\n");
    assert_eq!(reg.lookup(id, 1000, REGISTRATION_TTL_MS), "FOUND 1.1.1.1:1\n");
    assert_eq!(reg.register(id, "2.2.2.2:2", 2000), "OK registered\n");
    assert_eq!(reg.lookup(id, 2000 + 59_999, REGISTRATION_TTL_MS), "FOUND 2.2.2.2:2\n");
    assert_eq!(reg.lookup(id, 2000 + 60_000, REGISTRATION_TTL_MS), "NOT_FOUND\n");
    assert_eq!(reg.heartbeat(id, 50_000), "OK heartbeat\n");
    assert_eq!(reg.lookup(id, 100_000, REGISTRATION_TTL_MS), "FOUND 2.2.2.2:2\n");
    reg.expire(100_000, REGISTRATION_TTL_MS);
    assert_eq!(reg.lookup(id, 100_000, REGISTRATION_TTL_MS), "FOUND 2.2.2.2:2\n");
    reg.expire(110_000, REGISTRATION_TTL_MS);
    assert_eq!(reg.heartbeat(id, 110_000), "ERROR not-registered\n");

    let cmd = parse_command("PING");
    assert_eq!(reg.respond(&cmd, 0), Some("PONG\n".to_string()));
    assert_eq!(reg.respond(&parse_command("FOO"), 0), Some("ERROR invalid-command\n".to_string()));
    assert_eq!(reg.respond(&parse_command(""), 0), None);
    let line = format!("REGISTER {id} 3.3.3.3:3");
    assert_eq!(reg.respond(&parse_command(&line), 5), Some("OK registered\n".to_string()));
    let line = format!("LOOKUP {id}");
    assert_eq!(reg.respond(&parse_command(&line), 6), Some("FOUND 3.3.3.3:3\n".to_string()));
}


#[test]
fn device_and_server_understand_each_other() {
    let id = "00112233445566778899aabbccddeeff";
    let mut reg = Registry::new();
    let line = format!("{}\n", register_request(id, "10.0.0.2:47691"));
    let answer = reg.respond(&parse_command(&line), 10).unwrap();
    assert!(parse_register_answer(&answer_line(&answer).unwrap()).is_ok());
    let line = format!("{}\n", heartbeat_request(id));
    let answer = reg.respond(&parse_command(&line), 20).unwrap();
    assert!(parse_heartbeat_answer(&answer_line(&answer).unwrap()).is_ok());
    let line = format!("{}\n", lookup_request(id));
    let answer = reg.respond(&parse_command(&line), 30).unwrap();
    assert_eq!(
        parse_lookup_answer(&answer_line(&answer).unwrap()).unwrap(),
        Some("10.0.0.2:47691".to_string())
    );
    let line = format!("{}\n", lookup_request("ffeeddccbbaa99887766554433221100"));
    let answer = reg.respond(&parse_command(&line), 30).unwrap();
    assert_eq!(parse_lookup_answer(&answer_line(&answer).unwrap()).unwrap(), None);
}

#[test]
fn short_input_processes_into_one_record() {
    let key = [0u8; 32];
    let input = [1u8, 2, 3];
    let mut out = Vec::new();
    assert_eq!(pipeline::process_reader(&input, &mut out, &key), Ok(3));
    assert_eq!(out.len(), 36);
    assert_eq!(&out[0..5], &[0, 0, 0, 19, 0]);
    let mut nonce = [0u8; 12];
    nonce.copy_from_slice(&out[5..17]);
    assert_eq!(
        pipeline::unpack_chunk(&key, &out[17..36], &nonce, pipeline::Compression::Stored),
        Ok(vec![1, 2, 3])
    );
}

#[test]
fn streaming_steps_match_whole_input_processing() {
    let mut out = vec![9u8];
    let c = packer::write_packed_chunk(&compressible(8192), &mut out).unwrap();
    assert_eq!(c, packer::Compression::Zstd);
    let (_, packed) = packer::pack_chunk(&compressible(8192)).unwrap();
    assert_eq!(out[0], 9);
    assert_eq!(&out[1..], &packed[..]);

    let mut small = Vec::new();
    assert_eq!(packer::write_packed_chunk(b"abc", &mut small).unwrap(), packer::Compression::Stored);
    assert_eq!(small, b"abc".to_vec());

    let key = [8u8; 32];
    let mut records = Vec::new();
    let c = pipeline::write_record(&key, b"hello", &mut records).unwrap();
    assert_eq!(c, pipeline::Compression::Stored);
    assert_eq!(records.len(), 4 + 1 + 12 + 5 + 16);
    assert_eq!(&records[0..5], &[0, 0, 0, 21, 0]);
    let mut nonce = [0u8; 12];
    nonce.copy_from_slice(&records[5..17]);
    assert_eq!(
        pipeline::unpack_chunk(&key, &records[17..], &nonce, c).unwrap(),
        b"hello".to_vec()
    );
}

#[test]
fn ciphertext_is_longer_than_plaintext() {
    let key = generate_key();
    let plaintext = b"Tailsfer encrypted transfer test";
    let (ciphertext, nonce) = tailsfer_core::crypto::encryption::encrypt(&key, plaintext).unwrap();
    assert_eq!(ciphertext.len(), plaintext.len() + 16);
    assert_ne!(ciphertext, plaintext.to_vec());
    assert_eq!(decrypt(&key, &nonce, &ciphertext).unwrap(), plaintext.to_vec());
}

#[test]
fn invalid_device_ids_are_never_found() {
    let mut reg = Registry::new();
    let bad = "not-a-device-id";
    assert_eq!(
        reg.respond(&parse_command(&format!("REGISTER {bad} 1.2.3.4:5\n")), 0),
        Some("ERROR invalid-device-id\n".to_string())
    );
    assert_eq!(
        reg.respond(&parse_command(&format!("LOOKUP {bad}\n")), 1),
        Some("NOT_FOUND\n".to_string())
    );
    assert_eq!(reg.heartbeat(bad, 2), "ERROR not-registered\n");
}

#[test]
fn reads_of_any_size_are_processed_up_to_the_first_empty_one() {
    let key = [5u8; 32];
    let reads = vec![b"ab".to_vec(), compressible(10_000), Vec::new(), b"ignored".to_vec()];
    let mut out = Vec::new();
    assert_eq!(pipeline::process_reads(&reads, &mut out, &key), Ok(10_002));
    let mut pos = 0;
    let mut recovered = Vec::new();
    while pos < out.len() {
        let len = u32::from_be_bytes([out[pos], out[pos + 1], out[pos + 2], out[pos + 3]]) as usize;
        let c = if out[pos + 4] == 1 {
            pipeline::Compression::Zstd
        } else {
            pipeline::Compression::Stored
        };
        let mut nonce = [0u8; 12];
        nonce.copy_from_slice(&out[pos + 5..pos + 17]);
        recovered.extend(pipeline::unpack_chunk(&key, &out[pos + 17..pos + 17 + len], &nonce, c).unwrap());
        pos += 17 + len;
    }
    let mut expected = b"ab".to_vec();
    expected.extend(compressible(10_000));
    assert_eq!(recovered, expected);

    let mut packed = Vec::new();
    assert_eq!(packer::pack_reads(&reads, &mut packed), Ok(10_002));
    let (_, second) = packer::pack_chunk(&compressible(10_000)).unwrap();
    let mut expected_packed = b"ab".to_vec();
    expected_packed.extend(second);
    assert_eq!(packed, expected_packed);

    let mut none = Vec::new();
    assert_eq!(pipeline::process_reads(&[], &mut none, &key), Ok(0));
    assert!(none.is_empty());
}
