use hyperion::block::Header;
use hyperion::consensus;
use hyperion::crypto::{Hashable, HASH_SIZE};
use num_bigint::BigUint;

#[test]
fn test_roundtrip_serialization() {
    let h = Header::new(1, 1234567890, 0x1d00ffff, 42, [0u8; HASH_SIZE], [1u8; HASH_SIZE]);
    let bytes = h.serialize().expect("Failed to serialize header bytes");
    let decoded = Header::from_bytes(&bytes).expect("Failed to decode header from bytes");
    assert_eq!(h.double_sha256(), decoded.double_sha256());
}

#[test]
fn header_test_pow_check_fake() {
    let difficulty = 0x207fffff;
    let mut fake_hash = [0u8; HASH_SIZE];
    fake_hash[3] = 1;
    assert!(consensus::fake_validate_pow(fake_hash, difficulty));
}

#[test]
fn test_serialization_edge_cases() {
    let h = Header::new(u32::MAX, 0, 0x1d00ffff, u64::MAX, [0xFF; HASH_SIZE], [0xAA; HASH_SIZE]);
    let bytes = h.serialize().expect("Failed to serialize header bytes");
    let decoded = Header::from_bytes(&bytes).expect("Failed to decode header from bytes");
    assert_eq!(h.double_sha256(), decoded.double_sha256());
}

#[test]
fn header_test_pow_failure() {
    let h = Header::new(1, 0, 0x207fffff, 0, [0u8; HASH_SIZE], [0u8; HASH_SIZE]);
    let fake_hash = [0xFF; HASH_SIZE];
    let target = Header::new(0, 0, h.difficulty_compact, 0, [0u8; HASH_SIZE], [0u8; HASH_SIZE])
        .compact_to_target();
    let fake_hash_num = BigUint::from_bytes_be(&fake_hash);
    let target_num = BigUint::from_bytes_be(&target);
    assert!(fake_hash_num > target_num);
}

#[test]
fn test_compact_to_target_known() {
    let bits = 0x1d00ffff;
    let header = Header::new(0, 0, bits, 0, [0u8; HASH_SIZE], [0u8; HASH_SIZE]);
    let target = header.compact_to_target();
    let expected_start = [0u8, 0, 0, 0, 255, 255, 0];
    assert_eq!(&target[..7], &expected_start);
}

#[test]
fn test_display() {
    let h = Header::new(1, 123, 0x207fffff, 42, [0u8; HASH_SIZE], [0u8; HASH_SIZE]);
    let s = h.to_string();
    assert!(s.contains("hash="));
    assert!(s.contains("time=123"));
    assert!(s.contains("nonce=42"));
}

#[test]
fn test_hash_deterministic() {
    let h = Header::new(1, 123, 0x207fffff, 42, [0u8; HASH_SIZE], [0u8; HASH_SIZE]);
    let h2 = Header::new(1, 123, 0x207fffff, 42, [0u8; HASH_SIZE], [0u8; HASH_SIZE]);
    assert_eq!(h.double_sha256(), h2.double_sha256());
}

#[test]
fn test_difficulty_edges() {
    let easy = Header::new(1, 0, 0x207fffff, 0, [0; HASH_SIZE], [0; HASH_SIZE]);
    let hard = Header::new(1, 0, 0x01000000, 0, [0; HASH_SIZE], [0; HASH_SIZE]);
    let easy_num = BigUint::from_bytes_be(&easy.compact_to_target());
    let hard_num = BigUint::from_bytes_be(&hard.compact_to_target());
    assert!(easy_num > hard_num);
}

#[test]
fn consensus_test_pow_check_fake() {
    let difficulty = 0x207fffff;
    let mut fake_hash = [0u8; HASH_SIZE];
    fake_hash[3] = 1;
    assert!(consensus::fake_validate_pow(fake_hash, difficulty));
}

#[test]
fn consensus_test_pow_failure() {
    let h = Header::new(1, 0, 0x207fffff, 0, [0u8; HASH_SIZE], [0u8; HASH_SIZE]);
    let fake_hash = [0xFF; HASH_SIZE];
    let target = Header::new(0, 0, h.difficulty_compact, 0, [0u8; HASH_SIZE], [0u8; HASH_SIZE])
        .compact_to_target();
    let fake_hash_num = BigUint::from_bytes_be(&fake_hash);
    let target_num = BigUint::from_bytes_be(&target);
    assert!(fake_hash_num > target_num);
}
