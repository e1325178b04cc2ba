use hyperion::block::{Block, Header, Transaction};
use hyperion::chain::Blockchain;
use hyperion::consensus::{
    adjust_difficulty, compact_to_target, create_genesis_block, mine_block, target_to_compact,
    validate_pow,
};
use hyperion::crypto::{double_sha256, Hashable, HASH_SIZE};
use hyperion::error::{BlockError, BlockchainError, HeaderError, NetError, TransactionError};
use hyperion::merkle::compute_merkle_root;
use num_bigint::BigUint;
use std::collections::VecDeque;

fn tx(tag: u8) -> Transaction {
    Transaction::new(vec![vec![tag]], vec![vec![tag, tag]]).expect("valid transaction")
}

fn header_at(time: u32, compact: u32) -> Header {
    Header::new(1, time, compact, 0, [0u8; HASH_SIZE], [0u8; HASH_SIZE])
}

#[test]
fn header_decodes_to_itself() {
    let h = Header::new(7, 99, 0x1d00ffff, 123456789, [3u8; 32], [9u8; 32]);
    let bytes = h.serialize().expect("encodes");
    assert_eq!(bytes.len(), 84);
    let back = Header::from_bytes(&bytes).expect("decodes");
    assert_eq!(back, h);
    assert_eq!(back.double_sha256(), h.double_sha256());
}

#[test]
fn header_encoding_is_little_endian_in_field_order() {
    let h = Header::new(0x01020304, 5, 6, 0x0a0b0c0d0e0f1011, [0xAA; 32], [0xBB; 32]);
    let bytes = h.serialize().expect("encodes");
    assert_eq!(&bytes[0..4], &[4, 3, 2, 1]);
    assert_eq!(&bytes[4..8], &[5, 0, 0, 0]);
    assert_eq!(&bytes[8..12], &[6, 0, 0, 0]);
    assert_eq!(&bytes[12..20], &[0x11, 0x10, 0x0f, 0x0e, 0x0d, 0x0c, 0x0b, 0x0a]);
    assert_eq!(&bytes[20..52], &[0xAA; 32]);
    assert_eq!(&bytes[52..84], &[0xBB; 32]);
}

#[test]
fn block_decodes_to_itself() {
    let txs = vec![tx(1), Transaction::new(vec![vec![], vec![5, 6, 7]], vec![vec![8]]).unwrap()];
    let block = Block::new_with_merkle(header_at(10, 0x207fffff), txs);
    let bytes = block.serialize().expect("encodes");
    let back = Block::from_bytes(&bytes).expect("decodes");
    assert_eq!(back, block);
}

#[test]
fn chain_decodes_to_itself() {
    let chain = Blockchain::new_with_genesis().expect("genesis mined");
    let bytes = chain.serialize().expect("encodes");
    let back = Blockchain::from_bytes(&bytes).expect("decodes");
    assert_eq!(back.len(), 1);
    assert_eq!(back.latest_block(), chain.latest_block());
}

#[test]
fn decoding_rejects_truncated_and_trailing_bytes() {
    let block = Block::new_with_merkle(header_at(10, 0x207fffff), vec![tx(1)]);
    let bytes = block.serialize().expect("encodes");
    let truncated = &bytes[..bytes.len() - 1];
    assert_eq!(Block::from_bytes(truncated), Err(NetError::DeserializationError));
    let mut longer = bytes.clone();
    longer.push(0);
    assert_eq!(Block::from_bytes(&longer), Err(NetError::DeserializationError));
    assert_eq!(Header::from_bytes(&[0u8; 83]), Err(NetError::DeserializationError));
    assert_eq!(Transaction::from_bytes(&[1, 0, 0]), Err(NetError::DeserializationError));
}

#[test]
fn transaction_constructor_errors() {
    assert_eq!(Transaction::new(vec![], vec![vec![1]]), Err(TransactionError::EmptyInputs));
    assert_eq!(Transaction::new(vec![vec![1]], vec![]), Err(TransactionError::EmptyOutputs));
    assert_eq!(Transaction::new(vec![], vec![]), Err(TransactionError::EmptyInputs));
}

#[test]
fn double_sha256_of_empty_input() {
    let d = double_sha256(&[]);
    assert_eq!(hex::encode(d), "5df6e0e2761359d30a8275058e299fcc0381534545f55cf43e41983f5d4c9456");
}

#[test]
fn merkle_root_of_nothing_is_zero() {
    assert_eq!(compute_merkle_root(&[]), [0u8; 32]);
}

#[test]
fn merkle_root_of_one_is_its_hash() {
    let t = tx(4);
    assert_eq!(compute_merkle_root(&[t.clone()]), t.double_sha256());
}

fn pair(a: [u8; 32], b: [u8; 32]) -> [u8; 32] {
    let mut data = a.to_vec();
    data.extend_from_slice(&b);
    double_sha256(&data)
}

#[test]
fn merkle_root_pairs_odd_last_with_itself() {
    let ts = vec![tx(1), tx(2), tx(3)];
    let h: Vec<[u8; 32]> = ts.iter().map(|t| t.double_sha256()).collect();
    let expected = pair(pair(h[0], h[1]), pair(h[2], h[2]));
    assert_eq!(compute_merkle_root(&ts), expected);
    let five = vec![tx(1), tx(2), tx(3), tx(4), tx(5)];
    let g: Vec<[u8; 32]> = five.iter().map(|t| t.double_sha256()).collect();
    let l1 = [pair(g[0], g[1]), pair(g[2], g[3]), pair(g[4], g[4])];
    let l2 = [pair(l1[0], l1[1]), pair(l1[2], l1[2])];
    assert_eq!(compute_merkle_root(&five), pair(l2[0], l2[1]));
}

#[test]
fn template_commits_to_its_transactions() {
    let chain = Blockchain::new_with_genesis().expect("genesis mined");
    let block = chain.create_block_template(vec![tx(1), tx(2), tx(3)], 0x207fffff, 600);
    assert!(block.validate_merkle_root().is_ok());
    assert_eq!(block.header.version, 1);
    assert_eq!(block.header.prev_hash, chain.latest_block().header.double_sha256());
}

#[test]
fn compact_round_trips_on_canonical_values() {
    for c in [0x1d00ffffu32, 0x207fffff, 0x1b0404cb, 0x01000000, 0x03123456, 0x02008000, 0x01120000, 0x21008000, 0x05009999] {
        assert_eq!(target_to_compact(&compact_to_target(c)), c);
    }
    assert_eq!(target_to_compact(&compact_to_target(0x04000001)), 0x02010000);
}

#[test]
fn target_to_compact_of_zero_and_max() {
    assert_eq!(target_to_compact(&[0u8; 32]), 0x01000000);
    assert_eq!(target_to_compact(&[0xFF; 32]), 0x2100ffff);
}

#[test]
fn easier_compact_has_larger_target() {
    let pairs = [(0x207fffffu32, 0x1d00ffffu32), (0x1d00ffff, 0x1b0404cb), (0x03123456, 0x03123455), (0x04008000, 0x037fffff)];
    for (easy, hard) in pairs {
        let e = BigUint::from_bytes_be(&compact_to_target(easy));
        let h = BigUint::from_bytes_be(&compact_to_target(hard));
        assert!(e > h);
    }
}

#[test]
fn mainnet_difficulty_one_prefix() {
    let t = compact_to_target(0x1d00ffff);
    assert_eq!(&t[..7], &[0, 0, 0, 0, 255, 255, 0]);
    assert!(t[7..].iter().all(|b| *b == 0));
}

#[test]
fn easiest_test_target_is_near_max() {
    let t = compact_to_target(0x207fffff);
    assert_eq!(&t[..3], &[0x7f, 0xff, 0xff]);
    assert!(t[3..].iter().all(|b| *b == 0));
}

#[test]
fn compact_to_target_saturates_and_shifts_down() {
    assert_eq!(compact_to_target(0xff7fffff), [0xFF; 32]);
    let mut expected = [0u8; 32];
    expected[31] = 0x12;
    assert_eq!(compact_to_target(0x01123456), expected);
}

#[test]
fn mined_header_meets_its_target() {
    let mut h = header_at(0, 0x207fffff);
    let mined = mine_block(&mut h).expect("a nonce exists");
    assert!(validate_pow(&mined));
    assert_eq!(h, mined);
    let hash = BigUint::from_bytes_be(&mined.double_sha256());
    let target = BigUint::from_bytes_be(&compact_to_target(mined.difficulty_compact));
    assert!(hash <= target);
    assert!(mined.validate_pow().is_ok());
}

#[test]
fn unmet_target_is_reported() {
    let h = header_at(0, 0x01000000);
    assert!(!validate_pow(&h));
    assert_eq!(h.validate_pow(), Err(HeaderError::InvalidPoW));
}

#[test]
fn genesis_is_mined_and_valid() {
    let g = create_genesis_block().expect("genesis mined");
    assert!(validate_pow(&g.header));
    assert_eq!(g.header.prev_hash, [0u8; 32]);
    assert_eq!(g.header.difficulty_compact, 0x207fffff);
    assert_eq!(g.transactions[0].inputs, vec![b"genesis".to_vec()]);
    assert_eq!(g.transactions[0].outputs, vec![b"genesis_out".to_vec()]);
    assert!(g.validate_merkle_root().is_ok());
}

#[test]
fn appending_mined_blocks_keeps_chain_valid() {
    let mut chain = Blockchain::new_with_genesis().expect("genesis mined");
    for k in 1..=4u32 {
        let b = Blockchain::mine_new_block(&chain, vec![tx(k as u8)], k * 600).expect("mined");
        chain.add_block(b, false).expect("accepted");
        assert!(chain.validate());
    }
    assert_eq!(chain.len(), 5);
    let b = hyperion::miner::mine_new_block(&chain, vec![], 5000).expect("mined");
    chain.add_block(b, false).expect("accepted");
    assert!(chain.validate_with_options(false));
}

#[test]
fn wrong_link_is_refused_and_chain_unchanged() {
    let mut chain = Blockchain::new_with_genesis().expect("genesis mined");
    let mut b = chain.create_block_template(vec![tx(1)], 0x207fffff, 1);
    b.header.prev_hash = [1u8; 32];
    assert_eq!(chain.add_block(b, true), Err(BlockchainError::InvalidPreviousHash));
    assert_eq!(chain.len(), 1);
}

#[test]
fn tampered_merkle_root_is_refused() {
    let mut chain = Blockchain::new_with_genesis().expect("genesis mined");
    let mut b = chain.create_block_template(vec![tx(1), tx(2)], 0x207fffff, 1);
    b.header.merkle_root = [1u8; 32];
    assert_eq!(b.validate_merkle_root(), Err(BlockError::InvalidMerkleRoot));
    assert_eq!(chain.add_block(b, true), Err(BlockchainError::InvalidMerkleRoot));
    assert_eq!(chain.len(), 1);
}

#[test]
fn missing_work_is_refused_unless_skipped() {
    let mut chain = Blockchain::new_with_genesis().expect("genesis mined");
    let b = chain.create_block_template(vec![tx(1)], 0x01000000, 1);
    assert_eq!(chain.add_block(b.clone(), false), Err(BlockchainError::InvalidPoW));
    assert_eq!(chain.len(), 1);
    assert!(chain.add_block(b, true).is_ok());
    assert_eq!(chain.len(), 2);
    assert!(chain.validate_with_options(true));
    assert!(!chain.validate());
}

fn chain_with_times(times: &[u32], compact: u32) -> Blockchain {
    let mut blocks = VecDeque::new();
    for t in times {
        blocks.push_back(Block::new(header_at(*t, compact), vec![]));
    }
    Blockchain { blocks }
}

#[test]
fn difficulty_unchanged_inside_a_window() {
    let chain = chain_with_times(&[0, 100, 200], 0x207fffff);
    assert_eq!(adjust_difficulty(&chain), 0x207fffff);
    let eleven: Vec<u32> = (0..11).map(|i| i * 1000).collect();
    assert_eq!(adjust_difficulty(&chain_with_times(&eleven, 0x1d00ffff)), 0x1d00ffff);
}

#[test]
fn slow_window_raises_target() {
    let times: Vec<u32> = (0..10).map(|i| i * 1000).collect();
    assert_eq!(adjust_difficulty(&chain_with_times(&times, 0x207fffff)), 0x2100bfff);
    assert_eq!(adjust_difficulty(&chain_with_times(&times, 0x1d00ffff)), 0x1d017ffe);
}

#[test]
fn fast_window_lowers_target() {
    let times: Vec<u32> = (0..10).map(|i| i * 333).collect();
    assert_eq!(adjust_difficulty(&chain_with_times(&times, 0x1d00ffff)), 0x1c7fdebb);
}

#[test]
fn backwards_window_counts_one_second() {
    let times: Vec<u32> = (0..10).map(|i| 10000 - i * 10).collect();
    assert_eq!(adjust_difficulty(&chain_with_times(&times, 0x207fffff)), 0x1f057619);
}

#[test]
fn block_digest_covers_its_bytes_and_links_use_header_digests() {
    let block = Block::new_with_merkle(header_at(10, 0x207fffff), vec![tx(1)]);
    let bytes = block.serialize().expect("encodes");
    assert_eq!(block.double_sha256(), double_sha256(&bytes));
    assert_ne!(block.double_sha256(), block.header.double_sha256());
    let chain = Blockchain::new(block.clone());
    assert_eq!(chain.find_block(block.double_sha256()), Some(&block));
    assert!(chain.find_block(block.header.double_sha256()).is_none());
}

#[test]
fn mining_takes_the_least_nonce() {
    let chain = Blockchain::new_with_genesis().expect("genesis mined");
    let b1 = Blockchain::mine_new_block(&chain, vec![tx(1)], 600).expect("mined");
    let b2 = hyperion::miner::mine_new_block(&chain, vec![tx(1)], 600).expect("mined");
    assert_eq!(b1, b2);
    for n in 0..b1.header.nonce {
        let mut h = b1.header;
        h.nonce = n;
        assert!(!validate_pow(&h));
    }
    let g = chain.latest_block();
    for n in 0..g.header.nonce {
        let mut h = g.header;
        h.nonce = n;
        assert!(!validate_pow(&h));
    }
}
