use hyperion::block::{Block, Header, Transaction};
use hyperion::chain::Blockchain;
use hyperion::consensus::validate_pow;
use hyperion::crypto::{Hashable, HASH_SIZE};
use hyperion::error::TemplateError;
use hyperion::mempool::Mempool;
use hyperion::miner::{
    batch_end, mine_batch, nonce_ranges, optimal_threads, should_abandon, Coordinator,
    CoordinatorAction, MiningStats, MiningWorker, NonceRange,
};
use hyperion::rpc::{
    block_hex, build_block_template, submit_block, template_header, RpcError, INVALID_PARAMS,
};

fn tx(tag: u8) -> Transaction {
    Transaction::new(vec![vec![tag]], vec![vec![tag, 1]]).expect("valid transaction")
}

#[test]
fn mempool_keeps_order_and_removes_by_digest() {
    let mut pool = Mempool::new();
    assert!(pool.is_empty());
    pool.add_tx(tx(1));
    pool.add_tx(tx(2));
    pool.add_tx(tx(1));
    pool.add_tx(tx(3));
    assert_eq!(pool.len(), 4);
    pool.remove_tx(&tx(1));
    assert_eq!(pool.txs, vec![tx(2), tx(3)]);
    pool.remove_tx(&tx(9));
    assert_eq!(pool.len(), 2);
}

#[test]
fn mempool_hands_out_from_the_front() {
    let mut pool = Mempool::load();
    assert!(pool.get_next_transaction(5).is_none());
    for i in 0..5 {
        pool.add_tx(tx(i));
    }
    assert_eq!(pool.peek_transactions(2), vec![tx(0), tx(1)]);
    assert_eq!(pool.len(), 5);
    let taken = pool.get_next_transaction(2).expect("non-empty");
    assert_eq!(taken, vec![tx(0), tx(1)]);
    assert_eq!(pool.txs, vec![tx(2), tx(3), tx(4)]);
    let rest = pool.get_next_transaction(100).expect("non-empty");
    assert_eq!(rest.len(), 3);
    assert!(pool.is_empty());
    assert!(pool.save().is_ok());
}

#[test]
fn nonce_space_is_split_evenly() {
    let width = u64::MAX / 4;
    let r = nonce_ranges(4);
    assert_eq!(r.len(), 4);
    for (i, range) in r.iter().enumerate() {
        assert_eq!(*range, NonceRange { start: i as u64 * width, len: width });
    }
    assert_eq!(nonce_ranges(1), vec![NonceRange { start: 0, len: u64::MAX }]);
}

#[test]
fn batches_stop_at_the_range_end() {
    assert_eq!(batch_end(0, 100_000), 10_000);
    assert_eq!(batch_end(95_000, 100_000), 100_000);
    assert_eq!(batch_end(u64::MAX - 5, u64::MAX), u64::MAX);
}

#[test]
fn batch_finds_first_solution() {
    let h = Header::new(1, 0, 0x207fffff, 0, [0u8; HASH_SIZE], [0u8; HASH_SIZE]);
    let out = mine_batch(&h, 0, 10_000);
    let n = out.found.expect("an easy target is met quickly");
    assert_eq!(out.attempts, n);
    let mut solved = h;
    solved.nonce = n;
    assert!(validate_pow(&solved));
    for m in 0..n {
        let mut c = h;
        c.nonce = m;
        assert!(!validate_pow(&c));
    }
    let hard = Header::new(1, 0, 0x01000000, 0, [0u8; HASH_SIZE], [0u8; HASH_SIZE]);
    let none = mine_batch(&hard, 5, 25);
    assert_eq!(none.found, None);
    assert_eq!(none.attempts, 20);
}

#[test]
fn worker_abandons_stale_or_cancelled_work() {
    assert!(!should_abandon(true, false, false, 3, 3));
    assert!(should_abandon(false, false, false, 3, 3));
    assert!(should_abandon(true, true, false, 3, 3));
    assert!(should_abandon(true, false, true, 3, 3));
    assert!(should_abandon(true, false, false, 4, 3));
}

#[test]
fn worker_state_changes() {
    let mut w = MiningWorker::new(2);
    assert_eq!(w, MiningWorker { id: 2, running: false, hashes_computed: 0, current_work_id: 0 });
    w.restart();
    assert!(w.running);
    w.begin_work(7);
    assert_eq!(w.current_work_id, 7);
    w.record_hashes(10);
    w.record_hashes(u64::MAX);
    assert_eq!(w.hashes_computed, 9);
    w.stop();
    assert!(!w.running);
}

#[test]
fn stats_report_deltas() {
    let mut s = MiningStats::new();
    assert_eq!(s.hashes_since_last(100), 100);
    assert_eq!(s.hashes_since_last(250), 150);
    assert_eq!(s.hashes_since_last(10), 0);
    s.record_block();
    assert_eq!(s.blocks_found, 1);
}

#[test]
fn coordinator_submits_once_per_generation() {
    let mut c = Coordinator::new();
    let id = c.start_generation(100);
    assert_eq!(id, 0);
    assert_eq!(c.on_result(5), CoordinatorAction::Discard);
    assert_eq!(c.on_result(id), CoordinatorAction::SubmitAndRefresh);
    assert!(c.solution_found && c.cancelled);
    assert_eq!(c.on_result(id), CoordinatorAction::Discard);
    let next = c.start_generation(130);
    assert_eq!(next, 1);
    assert!(!c.solution_found);
    assert_eq!(c.on_result(next), CoordinatorAction::SubmitAndRefresh);
}

#[test]
fn coordinator_refreshes_stale_work() {
    let mut c = Coordinator::new();
    c.start_generation(1000);
    assert_eq!(c.on_stale_check(1030), CoordinatorAction::Wait);
    assert_eq!(c.on_stale_check(1060), CoordinatorAction::Wait);
    assert_eq!(c.on_stale_check(1061), CoordinatorAction::Refresh);
}

#[test]
fn thread_count_leaves_one_cpu() {
    assert_eq!(optimal_threads(8), 7);
    assert_eq!(optimal_threads(2), 2);
    assert_eq!(optimal_threads(1), 1);
}

#[test]
fn template_round_trips_through_hex() {
    let chain = Blockchain::new_with_genesis().expect("genesis mined");
    let t = build_block_template(&chain, vec![tx(1), tx(2)], 1234);
    assert_eq!(t.version, 1);
    assert_eq!(t.height, 1);
    assert_eq!(t.difficulty_compact, 0x207fffff);
    let tail_hash = chain.latest_block().header.double_sha256();
    assert_eq!(t.previous_block_hash, hex::encode(tail_hash));
    let h = template_header(&t).expect("well-formed template");
    assert_eq!(h.prev_hash, tail_hash);
    assert_eq!(h.merkle_root, hyperion::merkle::compute_merkle_root(&t.transactions));
    assert_eq!(h.time, 1234);
    assert_eq!(h.nonce, 0);
}

#[test]
fn template_with_bad_digests_is_refused() {
    let chain = Blockchain::new_with_genesis().expect("genesis mined");
    let mut t = build_block_template(&chain, vec![], 1);
    t.previous_block_hash = "xyz".to_string();
    assert_eq!(template_header(&t), Err(TemplateError::InvalidHex));
    t.previous_block_hash = "abcd".to_string();
    assert_eq!(template_header(&t), Err(TemplateError::InvalidHashLength));
    t.previous_block_hash = "AB".repeat(32);
    assert_eq!(template_header(&t).expect("upper case is read").prev_hash, [0xAB; 32]);
}

#[test]
fn node_accepts_a_mined_block_and_drops_its_transactions() {
    let mut chain = Blockchain::new_with_genesis().expect("genesis mined");
    let mut pool = Mempool::new();
    pool.add_tx(tx(1));
    pool.add_tx(tx(2));
    let txs = pool.peek_transactions(100);
    let block = Blockchain::mine_new_block(&chain, txs, 600).expect("mined");
    let hex_block = hex::encode(block.serialize().expect("encodes"));
    pool.add_tx(tx(3));
    let res = submit_block(&mut chain, &mut pool, &hex_block).expect("well-formed");
    assert!(res.accepted);
    assert_eq!(res.message, None);
    assert_eq!(chain.len(), 2);
    assert_eq!(pool.txs, vec![tx(3)]);
    let again = submit_block(&mut chain, &mut pool, &hex_block).expect("well-formed");
    assert!(!again.accepted);
    assert_eq!(again.message, Some("InvalidPreviousHash".to_string()));
    assert_eq!(chain.len(), 2);
}

#[test]
fn node_reports_malformed_submissions() {
    let mut chain = Blockchain::new_with_genesis().expect("genesis mined");
    let mut pool = Mempool::new();
    let bad_hex = submit_block(&mut chain, &mut pool, "zz").unwrap_err();
    assert_eq!(bad_hex.code, INVALID_PARAMS);
    assert!(bad_hex.message.starts_with("Invalid params: "));
    let bad_block = submit_block(&mut chain, &mut pool, "00").unwrap_err();
    assert_eq!(bad_block.code, INVALID_PARAMS);
    assert_eq!(chain.len(), 1);
    assert_eq!(RpcError::method_not_found().code, -32601);
    assert_eq!(RpcError::internal_error("x").message, "Internal error: x");
    assert_eq!(RpcError::custom(7, "m"), RpcError { code: 7, message: "m".to_string() });
}

#[test]
fn renderings_show_the_digest() {
    let h = Header::new(1, 123, 0x207fffff, 42, [0u8; HASH_SIZE], [0u8; HASH_SIZE]);
    let s = h.to_string();
    assert_eq!(s, format!("Header(hash={}, time=123, nonce=42)", hex::encode(h.double_sha256())));
    let t = tx(5);
    assert!(t.to_string().contains(&hex::encode(t.double_sha256())));
    let b = Block::new(h, vec![t]);
    assert!(b.to_string().starts_with(&format!("Block(hash={}, txs=1, ", hex::encode(b.double_sha256()))));
}

#[test]
fn refusals_name_the_failed_check() {
    let mut chain = Blockchain::new_with_genesis().expect("genesis mined");
    let mut pool = Mempool::new();
    let mut bad_root = Blockchain::mine_new_block(&chain, vec![tx(1)], 600).expect("mined");
    bad_root.header.merkle_root = [7u8; 32];
    let r = submit_block(&mut chain, &mut pool, &block_hex(&bad_root)).expect("well-formed");
    assert!(!r.accepted);
    assert_eq!(r.message, Some("InvalidMerkleRoot".to_string()));
    let unmined = chain.create_block_template(vec![tx(2)], 0x01000000, 600);
    let r = submit_block(&mut chain, &mut pool, &block_hex(&unmined)).expect("well-formed");
    assert!(!r.accepted);
    assert_eq!(r.message, Some("InvalidPoW".to_string()));
    assert_eq!(chain.len(), 1);
}

#[test]
fn block_hex_is_hex_of_the_encoding() {
    let b = Block::new(Header::new(1, 2, 3, 4, [5u8; 32], [6u8; 32]), vec![tx(9)]);
    assert_eq!(block_hex(&b), hex::encode(b.serialize().unwrap()));
}

#[test]
fn chain_summary_reports_the_tail() {
    let chain = Blockchain::new_with_genesis().expect("genesis mined");
    let s = hyperion::rpc::chain_summary(&chain);
    assert_eq!(s.blocks, 1);
    assert_eq!(s.headers, 1);
    assert_eq!(s.best_blockhash, hex::encode(chain.latest_block().double_sha256()));
    assert_eq!(s.difficulty_compact, 0x207fffff);
    assert_eq!(s.median_time, 0);
}
