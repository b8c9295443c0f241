use copy_sync::codec::{codec_round_trip, decode, encode, CodecError};

#[test]
fn round_trip_plain_bytes() {
    let b: Vec<u8> = vec![1, 2, 3, 4, 5, 254, 255, 0, 0, 0, 7];
    let compressed = encode(&b);
    assert_eq!(decode(&compressed).unwrap(), b);
}

#[test]
fn round_trip_empty() {
    let b: Vec<u8> = Vec::new();
    let compressed = encode(&b);
    assert!(!compressed.is_empty());
    assert_eq!(decode(&compressed).unwrap(), b);
}

#[test]
fn round_trip_large_repetitive() {
    let mut b: Vec<u8> = Vec::new();
    for i in 0..100_000u32 {
        b.push((i % 7) as u8);
    }
    let compressed = encode(&b);
    assert!(compressed.len() < b.len());
    assert_eq!(decode(&compressed).unwrap(), b);
}

#[test]
fn round_trip_helper() {
    let b: Vec<u8> = vec![9, 8, 7, 6];
    assert_eq!(codec_round_trip(&b), b);
}

#[test]
fn encode_actually_transforms() {
    let b: Vec<u8> = vec![42, 42, 42, 42];
    let compressed = encode(&b);
    assert_ne!(compressed, b);
}

#[test]
fn decode_garbage_is_corrupt_payload() {
    let junk: Vec<u8> = vec![0xff, 0xee, 0xdd, 0x00, 0x01];
    assert_eq!(decode(&junk), Err(CodecError::CorruptPayload));
}

#[test]
fn decode_truncated_is_corrupt_payload() {
    let b: Vec<u8> = vec![10, 20, 30, 40, 50, 60, 70, 80];
    let mut compressed = encode(&b);
    compressed.truncate(compressed.len() / 2);
    assert_eq!(decode(&compressed), Err(CodecError::CorruptPayload));
}
