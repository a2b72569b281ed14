use tailsfer_core::crypto::encryption::{decrypt, encrypt, generate_key, parse_hex_key};
use tailsfer_core::transfer::decision::{
    complete_frame, parse_complete_frame, parse_verified_frame, verified_frame, TransferDecision,
    TransferSession, TransferState,
};
use tailsfer_core::transfer::format::FileHeader;
use tailsfer_core::transfer::offer::TransferOffer;
use tailsfer_core::transfer::pipeline::{pack_chunk, unpack_chunk};
use tailsfer_core::transport::protocol::{Frame, FrameType, MAX_FRAME_SIZE};

#[test]
fn encryption_roundtrip() {
    let key = generate_key();

    let plaintext = b"Tailsfer encrypted transfer test";

    let (ciphertext, nonce) = encrypt(&key, plaintext).unwrap();

    assert_ne!(ciphertext, plaintext);

    let decrypted = decrypt(&key, &nonce, &ciphertext).unwrap();

    assert_eq!(decrypted, plaintext);
}

#[test]
fn tampered_ciphertext_is_rejected() {
    let key = generate_key();

    let plaintext = b"Tailsfer authentication test";

    let (mut ciphertext, nonce) = encrypt(&key, plaintext).unwrap();

    ciphertext[0] ^= 0x01;

    assert!(decrypt(&key, &nonce, &ciphertext).is_err());
}

#[test]
fn invalid_key_is_rejected() {
    assert!(parse_hex_key("abcd").is_err());
}

#[test]
fn hex_key_roundtrip() {
    let key = parse_hex_key(
        "000102030405060708090a0b0c0d0e0f\
         101112131415161718191a1b1c1d1e1f",
    )
    .unwrap();

    assert_eq!(key[0], 0);
    assert_eq!(key[31], 31);
}

#[test]
fn decisions_have_expected_names() {
    assert_eq!(TransferDecision::Accept.as_str(), "ACCEPT");
    assert_eq!(TransferDecision::Reject.as_str(), "REJECT");
}

#[test]
fn accept_frame_roundtrip() {
    let transfer_id = [7u8; 16];

    let frame = TransferDecision::Accept.to_frame(transfer_id).unwrap();

    let (decoded_id, decoded_decision) = TransferDecision::from_frame(&frame).unwrap();

    assert_eq!(decoded_id, transfer_id);
    assert_eq!(decoded_decision, TransferDecision::Accept);
    assert_eq!(frame.frame_type, FrameType::Accept);
}

#[test]
fn reject_frame_roundtrip() {
    let transfer_id = [9u8; 16];

    let frame = TransferDecision::Reject.to_frame(transfer_id).unwrap();

    let (decoded_id, decoded_decision) = TransferDecision::from_frame(&frame).unwrap();

    assert_eq!(decoded_id, transfer_id);
    assert_eq!(decoded_decision, TransferDecision::Reject);
}

#[test]
fn complete_frame_roundtrip() {
    let transfer_id = [7u8; 16];
    let hash = [42u8; 32];

    let frame = complete_frame(transfer_id, hash).unwrap();

    let (decoded_id, decoded_hash) = parse_complete_frame(&frame).unwrap();

    assert_eq!(decoded_id, transfer_id);
    assert_eq!(decoded_hash, hash);
}

#[test]
fn verified_frame_roundtrip() {
    let transfer_id = [8u8; 16];

    let frame = verified_frame(transfer_id).unwrap();

    let decoded_id = parse_verified_frame(&frame).unwrap();

    assert_eq!(decoded_id, transfer_id);
}

#[test]
fn invalid_complete_length_is_rejected() {
    let frame = Frame::new(FrameType::Complete, vec![0u8; 47]).unwrap();

    assert!(parse_complete_frame(&frame).is_err());
}

#[test]
fn invalid_verified_length_is_rejected() {
    let frame = Frame::new(FrameType::Verified, vec![0u8; 15]).unwrap();

    assert!(parse_verified_frame(&frame).is_err());
}

#[test]
fn new_transfer_starts_as_offered() {
    let session = TransferSession::new();

    assert_eq!(session.state(), TransferState::Offered);
    assert!(!session.state().can_receive_chunks());
}

#[test]
fn accepted_transfer_can_receive() {
    let mut session = TransferSession::new();

    session.accept().unwrap();

    assert_eq!(session.state(), TransferState::Accepted);
    assert!(session.state().can_receive_chunks());

    session.begin_receiving().unwrap();

    assert_eq!(session.state(), TransferState::Receiving);
}

#[test]
fn header_roundtrip() {
    let header = FileHeader::new(100_000_000_000, 1024 * 1024);

    let mut data = Vec::new();
    header.write_to(&mut data).unwrap();

    let decoded = FileHeader::read_from(&data[..]).unwrap();

    assert_eq!(decoded.version, 1);
    assert_eq!(decoded.original_size, 100_000_000_000);
    assert_eq!(decoded.chunk_size, 1024 * 1024);
}

#[test]
fn offer_creation() {
    let transfer_id = [7u8; 16];

    let offer = TransferOffer::new(
        transfer_id,
        "hello.bin".to_string(),
        10 * 1024 * 1024,
        "application/octet-stream".to_string(),
    )
    .unwrap();

    assert_eq!(offer.transfer_id, transfer_id);
    assert_eq!(offer.file_name, "hello.bin");
    assert_eq!(offer.file_size, 10 * 1024 * 1024);
    assert_eq!(offer.mime_type, "application/octet-stream");
}

#[test]
fn payload_roundtrip() {
    let original = TransferOffer::new(
        [42u8; 16],
        "hello.bin".to_string(),
        10_485_760,
        "application/octet-stream".to_string(),
    )
    .unwrap();

    let encoded = original.encode_payload().unwrap();
    let decoded = TransferOffer::decode_payload(&encoded).unwrap();

    assert_eq!(decoded, original);
}

#[test]
fn offer_frame_roundtrip() {
    let original = TransferOffer::new(
        [99u8; 16],
        "photo.jpg".to_string(),
        123_456,
        "image/jpeg".to_string(),
    )
    .unwrap();

    let frame = original.to_frame().unwrap();
    let decoded = TransferOffer::from_frame(&frame).unwrap();

    assert_eq!(decoded, original);
    assert_eq!(frame.frame_type, FrameType::TransferOffer);
}

#[test]
fn path_traversal_is_rejected() {
    assert!(
        TransferOffer::new(
            [1u8; 16],
            "../evil.txt".to_string(),
            100,
            "text/plain".to_string(),
        )
        .is_err()
    );

    assert!(
        TransferOffer::new(
            [1u8; 16],
            "folder/evil.txt".to_string(),
            100,
            "text/plain".to_string(),
        )
        .is_err()
    );

    assert!(
        TransferOffer::new(
            [1u8; 16],
            "folder\\evil.txt".to_string(),
            100,
            "text/plain".to_string(),
        )
        .is_err()
    );
}

#[test]
fn empty_file_name_is_rejected() {
    assert!(
        TransferOffer::new([1u8; 16], String::new(), 100, "text/plain".to_string(),).is_err()
    );
}

#[test]
fn malformed_payload_is_rejected() {
    assert!(TransferOffer::decode_payload(&[1, 2, 3]).is_err());
}

#[test]
fn wrong_frame_type_is_rejected() {
    let frame = Frame::new(FrameType::Accept, vec![0u8; 16]).unwrap();

    assert!(TransferOffer::from_frame(&frame).is_err());
}

#[test]
fn chunk_roundtrip() {
    let key = generate_key();

    let original = b"Tailsfer secure transfer test data ".repeat(1000);

    let (encrypted, compression, nonce) = pack_chunk(&key, &original).unwrap();

    let recovered = unpack_chunk(&key, &encrypted, &nonce, compression).unwrap();

    assert_eq!(original, recovered);
}

#[test]
fn frame_types_roundtrip() {
    for value in 1u8..=9 {
        let frame = FrameType::try_from(value).unwrap();

        assert_eq!(frame.as_u8(), value);
    }
}

#[test]
fn invalid_frame_type_is_rejected() {
    assert!(FrameType::try_from(0).is_err());
    assert!(FrameType::try_from(10).is_err());
}

#[test]
fn protocol_frame_roundtrip() {
    let frame = Frame::new(FrameType::TransferOffer, b"test payload".to_vec()).unwrap();

    let encoded = frame.encode().unwrap();
    let decoded = Frame::decode(&encoded).unwrap();

    assert_eq!(decoded, frame);
}

#[test]
fn oversized_payload_is_rejected() {
    let payload = vec![0u8; MAX_FRAME_SIZE + 1];

    assert!(Frame::new(FrameType::Chunk, payload).is_err());
}

#[test]
fn truncated_frame_is_rejected() {
    let frame = Frame::new(FrameType::Accept, vec![1, 2, 3]).unwrap();

    let mut encoded = frame.encode().unwrap();

    encoded.pop();

    assert!(Frame::decode(&encoded).is_err());
}

#[test]
fn mismatched_length_is_rejected() {
    let mut encoded = vec![FrameType::Accept.as_u8(), 0, 0, 0, 10, 1, 2, 3];

    assert!(Frame::decode(&encoded).is_err());

    encoded[4] = 3;

    assert!(Frame::decode(&encoded).is_ok());
}
