use hyperion::block::{Block, Header, Transaction};
use hyperion::consensus::fake_validate_pow;
use hyperion::crypto::{Hashable, HASH_SIZE};
use hyperion::merkle::compute_merkle_root;

#[test]
fn test_block_roundtrip_serialization() {
    let tx1 = Transaction::new(vec![b"in1".to_vec()], vec![b"out1".to_vec()])
        .expect("Failed to create tx1");
    let tx2 = Transaction::new(vec![b"in2".to_vec()], vec![b"out2".to_vec()])
        .expect("Failed to create tx2");

    let header = Header::new(1, 1234567890, 0x1d00ffff, 42, [0u8; HASH_SIZE], [0u8; 32]);
    let block = Block::new_with_merkle(header, vec![tx1.clone(), tx2.clone()]);

    let bytes = block.serialize().expect("Failed to serialize block bytes");
    let decoded = Block::from_bytes(&bytes).expect("Failed to decode block from bytes");

    assert_eq!(block.double_sha256(), decoded.double_sha256());
    assert!(decoded.validate_merkle_root().is_ok());

    let pow_ok = fake_validate_pow([0u8; 32], decoded.header.difficulty_compact);
    assert!(pow_ok);
}

#[test]
fn test_block_display() {
    let tx = Transaction::new(vec![b"in".to_vec()], vec![b"out".to_vec()])
        .expect("Failed to create tx");
    let header = Header::new(1, 123, 0x207fffff, 42, [0u8; HASH_SIZE], [0u8; 32]);
    let block = Block::new_with_merkle(header, vec![tx]);

    let s = block.to_string();
    assert!(s.contains("Block("));
    assert!(s.contains("hash="));
}

#[test]
fn block_test_merkle_root_consistency() {
    let tx1 = Transaction::new(vec![b"a".to_vec()], vec![b"b".to_vec()])
        .expect("Failed to create tx1");
    let tx2 = Transaction::new(vec![b"c".to_vec()], vec![b"d".to_vec()])
        .expect("Failed to create tx2");
    let txs = vec![tx1.clone(), tx2.clone()];

    let root1 = compute_merkle_root(&txs);
    let root2 = compute_merkle_root(&txs);

    assert_eq!(root1, root2);
}

#[test]
fn test_transaction_hash_deterministic() {
    let tx1 = Transaction::new(vec![b"in".to_vec()], vec![b"out".to_vec()]).expect("Failed to create tx1");
    let tx2 = Transaction::new(vec![b"in".to_vec()], vec![b"out".to_vec()]).expect("Failed to create tx2");
    assert_eq!(tx1.double_sha256(), tx2.double_sha256());
}

#[test]
fn test_transaction_roundtrip() {
    let tx = Transaction::new(vec![b"a".to_vec()], vec![b"b".to_vec()]).expect("Failed to create tx");
    let bytes = tx.serialize().expect("Failed to serialize tx bytes");
    let decoded = Transaction::from_bytes(&bytes).expect("Failed to decode tx from bytes");
    assert_eq!(tx.double_sha256(), decoded.double_sha256());
}
