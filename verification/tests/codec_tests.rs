use base64::Engine;
use read_api::codec::{
    get_transaction_data_and_digest, CodecError, INTENT_APP_ID, INTENT_SCOPE_TRANSACTION_DATA,
    INTENT_VERSION,
};
use sha3::Digest;

fn frame(kind: u8, sender: &[u8; 32], gas: u64, data: &[u8]) -> Vec<u8> {
    let mut v = vec![kind];
    v.extend_from_slice(sender);
    v.extend_from_slice(&gas.to_le_bytes());
    v.extend_from_slice(&(data.len() as u32).to_le_bytes());
    v.extend_from_slice(data);
    v
}

fn encode_text(raw: &[u8]) -> String {
    base64::engine::general_purpose::STANDARD.encode(raw)
}

#[test]
fn decode_yields_the_framed_payload() {
    let sender = [7u8; 32];
    let raw = frame(1, &sender, 42_000, &[9, 8, 7]);
    let (payload, digest) = get_transaction_data_and_digest(&encode_text(&raw)).unwrap();
    assert_eq!(payload.kind, 1);
    assert_eq!(payload.sender, sender.to_vec());
    assert_eq!(payload.gas_budget, 42_000);
    assert_eq!(payload.data, vec![9, 8, 7]);
    assert_eq!(digest.bytes.len(), 32);
}

#[test]
fn digest_is_the_hash_of_the_intent_envelope_not_the_raw_bytes() {
    let sender = [1u8; 32];
    let raw = frame(0, &sender, 5, &[2, 4, 6]);
    let (_, digest) = get_transaction_data_and_digest(&encode_text(&raw)).unwrap();

    let mut envelope = vec![INTENT_VERSION, INTENT_SCOPE_TRANSACTION_DATA, INTENT_APP_ID];
    envelope.extend_from_slice(&raw);
    let expected = sha3::Sha3_256::digest(&envelope).to_vec();
    assert_eq!(digest.bytes, expected);

    let over_raw = sha3::Sha3_256::digest(&raw).to_vec();
    assert_ne!(digest.bytes, over_raw);
}

#[test]
fn decode_is_deterministic_and_a_bit_flip_changes_the_digest() {
    let sender = [3u8; 32];
    let raw = frame(0, &sender, 77, &[10, 20, 30, 40]);
    let text = encode_text(&raw);
    let (_, d1) = get_transaction_data_and_digest(&text).unwrap();
    let (_, d2) = get_transaction_data_and_digest(&text).unwrap();
    assert_eq!(d1.bytes, d2.bytes);

    let mut flipped = raw.clone();
    let last = flipped.len() - 1;
    flipped[last] ^= 0x01;
    let (_, d3) = get_transaction_data_and_digest(&encode_text(&flipped)).unwrap();
    assert_ne!(d1.bytes, d3.bytes);
}

#[test]
fn ill_formed_base64_is_a_malformed_encoding() {
    let text = String::from("@@@not-base64@@@");
    match get_transaction_data_and_digest(&text) {
        Err(CodecError::MalformedEncoding) => {}
        _ => panic!("expected a malformed-encoding error"),
    }
}

#[test]
fn bytes_too_short_for_the_framing_are_a_malformed_payload() {
    let text = encode_text(&[1, 2, 3]);
    match get_transaction_data_and_digest(&text) {
        Err(CodecError::MalformedPayload) => {}
        _ => panic!("expected a malformed-payload error"),
    }
}

#[test]
fn unknown_kind_tag_is_a_malformed_payload() {
    let sender = [0u8; 32];
    let raw = frame(9, &sender, 1, &[]);
    match get_transaction_data_and_digest(&encode_text(&raw)) {
        Err(CodecError::MalformedPayload) => {}
        _ => panic!("expected a malformed-payload error"),
    }
}

#[test]
fn length_field_must_match_the_data_exactly() {
    let sender = [0u8; 32];
    let mut raw = frame(0, &sender, 1, &[5, 5]);
    raw.push(0);
    match get_transaction_data_and_digest(&encode_text(&raw)) {
        Err(CodecError::MalformedPayload) => {}
        _ => panic!("expected a malformed-payload error"),
    }
}

#[test]
fn empty_data_section_is_accepted() {
    let sender = [9u8; 32];
    let raw = frame(0, &sender, u64::MAX, &[]);
    let (payload, _) = get_transaction_data_and_digest(&encode_text(&raw)).unwrap();
    assert_eq!(payload.gas_budget, u64::MAX);
    assert!(payload.data.is_empty());
}
