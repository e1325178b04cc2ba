//! The node's request handlers and the miner's view of their results, as
//! plain values: the transport around them lives outside the library.
use vstd::prelude::*;

use crate::block::{Block, Header, Transaction, txs_view};
use crate::chain::{Blockchain, accepts, linked};
use crate::codec::{block_bytes, block_hash, header_hash, parse_block, tx_hash, whole};
use crate::consensus::{adjust_difficulty, next_difficulty};
use crate::crypto::Hashable;
use crate::display::{hex_of, to_hex};
use crate::error::{BlockchainError, TemplateError};
use crate::mempool::{Mempool, without_hash};
use crate::merkle::{compute_merkle_root, merkle_ok, merkle_root_spec};

verus! {

/// Error code: the method does not exist.
pub const METHOD_NOT_FOUND: i32 = -32601;

/// Error code: the parameters are malformed.
pub const INVALID_PARAMS: i32 = -32602;

/// Error code: the node failed internally.
pub const INTERNAL_ERROR: i32 = -32603;

/// Most transactions handed out in one template.
pub const MAX_TEMPLATE_TXS: usize = 100;

/// Work for a miner: the fields of the next header, and its transactions.
#[derive(Clone, Debug, PartialEq, Eq)]
pub struct BlockTemplate {
    pub version: u32,
    pub previous_block_hash: String,
    pub transactions: Vec<Transaction>,
    pub difficulty_compact: u32,
    pub timestamp: u32,
    pub height: u64,
    pub merkle_root: String,
}

/// Parameters of `submit_block`.
#[derive(Clone, Debug, PartialEq, Eq)]
pub struct SubmitBlockParams {
    pub block_hex: String,
}

/// Result of `submit_block`: a refused block is a normal outcome.
#[derive(Clone, Debug, PartialEq, Eq)]
pub struct SubmitBlockResult {
    pub accepted: bool,
    pub message: Option<String>,
}

/// What the miner sends to submit a block.
#[derive(Clone, Debug, PartialEq, Eq)]
pub struct SubmitBlockRequest {
    pub block_hex: String,
}

/// What the miner reads back after submitting a block.
#[derive(Clone, Debug, PartialEq, Eq)]
pub struct SubmitBlockResponse {
    pub accepted: bool,
    pub message: Option<String>,
}

/// A request for work.
#[derive(Clone, Debug, PartialEq, Eq)]
pub struct GetWorkRequest {
    pub miner_address: Option<String>,
}

/// A JSON-RPC error: a code and a message.
#[derive(Clone, Debug, PartialEq, Eq)]
pub struct RpcError {
    pub code: i32,
    pub message: String,
}

/// The value of one hexadecimal digit, in either case.
pub open spec fn hex_nibble(c: char) -> Option<u8> {
    if '0' <= c <= '9' {
        Some(((c as u32) - 48) as u8)
    } else if 'a' <= c <= 'f' {
        Some(((c as u32) - 87) as u8)
    } else if 'A' <= c <= 'F' {
        Some(((c as u32) - 55) as u8)
    } else {
        None
    }
}

/// The bytes that a string of hexadecimal digit pairs spells, if it is one.
pub open spec fn hex_decoded(s: Seq<char>) -> Option<Seq<u8>>
    decreases s.len(),
{
    if s.len() % 2 != 0 {
        None
    } else if s.len() == 0 {
        Some(Seq::empty())
    } else {
        match (hex_nibble(s[0]), hex_nibble(s[1]), hex_decoded(s.subrange(2, s.len() as int))) {
            (Some(hi), Some(lo), Some(rest)) => Some(seq![(hi * 16 + lo) as u8] + rest),
            _ => None,
        }
    }
}

/// Relies on `hex::decode`: pairs of hexadecimal digits, either case, high
/// nibble first; an odd length or any other character (any non-ASCII one
/// included) is an error.
#[verifier::external_body]
fn decode_hex(s: &str) -> (r: Option<Vec<u8>>)
    ensures
        match hex_decoded(s@) {
            Some(b) => r matches Some(v) && v@ == b,
            None => r is None,
        },
{
    hex::decode(s).ok()
}

/// Relies on `format!("{}: {}", ..)`, which writes the two strings with
/// `": "` between them.
#[verifier::external_body]
fn prefixed(prefix: &str, msg: &str) -> (r: String)
    ensures
        r@ == prefix@ + seq![':', ' '] + msg@,
{
    format!("{}: {}", prefix, msg)
}

impl RpcError {
    pub fn method_not_found() -> (r: RpcError)
        ensures
            r.code == METHOD_NOT_FOUND,
            r.message@ == "Method not found"@,
    {
        RpcError { code: METHOD_NOT_FOUND, message: "Method not found".to_owned() }
    }

    /// `Invalid params: <msg>`.
    pub fn invalid_params(msg: &str) -> (r: RpcError)
        ensures
            r.code == INVALID_PARAMS,
            r.message@ == "Invalid params"@ + seq![':', ' '] + msg@,
    {
        RpcError { code: INVALID_PARAMS, message: prefixed("Invalid params", msg) }
    }

    /// `Internal error: <msg>`.
    pub fn internal_error(msg: &str) -> (r: RpcError)
        ensures
            r.code == INTERNAL_ERROR,
            r.message@ == "Internal error"@ + seq![':', ' '] + msg@,
    {
        RpcError { code: INTERNAL_ERROR, message: prefixed("Internal error", msg) }
    }

    pub fn custom(code: i32, msg: &str) -> (r: RpcError)
        ensures
            r.code == code,
            r.message@ == msg@,
    {
        RpcError { code, message: msg.to_owned() }
    }
}

/// The template that the node hands out on top of `chain` for
/// `transactions` at `timestamp`.
pub fn build_block_template(chain: &Blockchain, transactions: Vec<Transaction>, timestamp: u32) -> (r:
    BlockTemplate)
    requires
        chain.blocks@.len() > 0,
    ensures
        r.version == 1,
        r.previous_block_hash@ == hex_of(header_hash(chain.blocks@.last().header)),
        r.transactions == transactions,
        r.difficulty_compact == next_difficulty(chain.blocks@),
        r.timestamp == timestamp,
        r.height == chain.blocks@.len(),
        r.merkle_root@ == hex_of(merkle_root_spec(txs_view(transactions@))),
{
    let latest = chain.latest_block();
    let prev = latest.header.double_sha256();
    let difficulty = adjust_difficulty(chain);
    let merkle_root = compute_merkle_root(transactions.as_slice());
    BlockTemplate {
        version: 1,
        previous_block_hash: to_hex(&prev),
        transactions,
        difficulty_compact: difficulty,
        timestamp,
        height: chain.len() as u64,
        merkle_root: to_hex(&merkle_root),
    }
}

/// The hexadecimal form of a block's canonical bytes, as `submit_block`
/// takes it.
pub fn block_hex(b: &Block) -> (r: String)
    ensures
        r@ == hex_of(block_bytes(*b)),
{
    let bytes = match b.serialize() {
        Ok(v) => v,
        Err(_) => Vec::new(),
    };
    to_hex(bytes.as_slice())
}

/// Reads a 32-byte digest written in hexadecimal.
fn hash_from_hex(s: &str) -> (r: Result<[u8; 32], TemplateError>)
    ensures
        match hex_decoded(s@) {
            None => r == Err::<[u8; 32], _>(TemplateError::InvalidHex),
            Some(b) => if b.len() == 32 {
                r matches Ok(h) && h@ == b
            } else {
                r == Err::<[u8; 32], _>(TemplateError::InvalidHashLength)
            },
        },
{
    let bytes = match decode_hex(s) {
        Some(b) => b,
        None => return Err(TemplateError::InvalidHex),
    };
    if bytes.len() != 32 {
        return Err(TemplateError::InvalidHashLength);
    }
    let mut out = [0u8; 32];
    let mut i: usize = 0;
    while i < 32
        invariant
            bytes@.len() == 32,
            0 <= i <= 32,
            forall|j: int| 0 <= j < i ==> out@[j] == bytes@[j],
        decreases 32 - i,
    {
        out[i] = bytes[i];
        i += 1;
    }
    assert(out@ =~= bytes@);
    Ok(out)
}

/// The digest that a 64-digit hexadecimal string spells, if it does.
pub open spec fn hash_of_hex(s: Seq<char>) -> Option<Seq<u8>> {
    match hex_decoded(s) {
        Some(b) => if b.len() == 32 {
            Some(b)
        } else {
            None
        },
        None => None,
    }
}

/// The unmined header that a template describes (nonce zero); both digests
/// must be 64 hexadecimal digits.
pub fn template_header(t: &BlockTemplate) -> (r: Result<Header, TemplateError>)
    ensures
        match (hash_of_hex(t.previous_block_hash@), hash_of_hex(t.merkle_root@)) {
            (Some(p), Some(m)) => r matches Ok(h) && h.version == t.version && h.time == t.timestamp
                && h.difficulty_compact == t.difficulty_compact && h.nonce == 0 && h.prev_hash@ == p
                && h.merkle_root@ == m,
            _ => r is Err,
        },
{
    let prev_hash = match hash_from_hex(t.previous_block_hash.as_str()) {
        Ok(h) => h,
        Err(e) => return Err(e),
    };
    let merkle_root = match hash_from_hex(t.merkle_root.as_str()) {
        Ok(h) => h,
        Err(e) => return Err(e),
    };
    Ok(Header::new(t.version, t.timestamp, t.difficulty_compact, 0, prev_hash, merkle_root))
}

/// `pool` after removing, in order, every transaction with the digest of
/// each of `txs`.
pub open spec fn remove_all(pool: Seq<Transaction>, txs: Seq<Transaction>) -> Seq<Transaction>
    decreases txs.len(),
{
    if txs.len() == 0 {
        pool
    } else {
        without_hash(remove_all(pool, txs.drop_last()), tx_hash(txs.last()@))
    }
}

/// What submitting `b` did: it was accepted exactly when the chain takes it
/// with proof of work, and then it was appended and its transactions left
/// the pool; a refusal carries the name of the check that failed.
pub open spec fn submit_outcome(
    old_chain: Seq<Block>,
    new_chain: Seq<Block>,
    old_pool: Seq<Transaction>,
    new_pool: Seq<Transaction>,
    b: Block,
    accepted: bool,
    message: Option<String>,
) -> bool {
    &&& accepted == accepts(old_chain.last(), b, false)
    &&& accepted ==> new_chain == old_chain.push(b) && new_pool == remove_all(old_pool, b.transactions@)
    &&& !accepted ==> (message matches Some(m) && m@ == refusal_name(old_chain.last(), b))
}

/// The name of the first check that `b` fails after `tail`: its link, then
/// its Merkle root, then its proof of work.
pub open spec fn refusal_name(tail: Block, b: Block) -> Seq<char> {
    if !linked(tail, b) {
        "InvalidPreviousHash"@
    } else if !merkle_ok(b) {
        "InvalidMerkleRoot"@
    } else {
        "InvalidPoW"@
    }
}

/// The name of a refusal, as reported to the miner.
pub fn error_name(e: BlockchainError) -> (r: String)
    ensures
        e == BlockchainError::InvalidPreviousHash ==> r@ == "InvalidPreviousHash"@,
        e == BlockchainError::InvalidMerkleRoot ==> r@ == "InvalidMerkleRoot"@,
        e == BlockchainError::InvalidPoW ==> r@ == "InvalidPoW"@,
{
    match e {
        BlockchainError::InvalidPreviousHash => "InvalidPreviousHash".to_owned(),
        BlockchainError::InvalidMerkleRoot => "InvalidMerkleRoot".to_owned(),
        BlockchainError::InvalidPoW => "InvalidPoW".to_owned(),
    }
}

/// The node's handling of `submit_block`: the hex is decoded, then the
/// block, which is appended with its proof of work checked. An accepted
/// block's transactions leave the pool. A refused block is a normal result,
/// not an error; malformed input is an invalid-params error and changes
/// nothing.
pub fn submit_block(chain: &mut Blockchain, mempool: &mut Mempool, block_hex: &str) -> (r: Result<
    SubmitBlockResult,
    RpcError,
>)
    requires
        old(chain).blocks@.len() > 0,
    ensures
        match hex_decoded(block_hex@) {
            None => r matches Err(e) && e.code == INVALID_PARAMS,
            Some(bytes) => match whole(parse_block(bytes)) {
                None => r matches Err(e) && e.code == INVALID_PARAMS,
                Some(v) => r matches Ok(res) && exists|b: Block|
                    b@ == v && #[trigger] submit_outcome(
                        old(chain).blocks@,
                        final(chain).blocks@,
                        old(mempool).txs@,
                        final(mempool).txs@,
                        b,
                        res.accepted,
                        res.message,
                    ),
            },
        },
        r is Err || !(r matches Ok(res) && res.accepted) ==> final(chain).blocks@ == old(
            chain,
        ).blocks@ && final(mempool).txs@ == old(mempool).txs@,
{
    let bytes = match decode_hex(block_hex) {
        Some(b) => b,
        None => return Err(RpcError::invalid_params("Invalid hex")),
    };
    let block = match Block::from_bytes(bytes.as_slice()) {
        Ok(b) => b,
        Err(_) => return Err(RpcError::invalid_params("Invalid block")),
    };
    let ghost b = block;
    match chain.add_block(block, false) {
        Ok(()) => {
            let n = chain.len();
            let added = &chain.blocks[n - 1];
            assert(*added == b);
            let mut i: usize = 0;
            while i < added.transactions.len()
                invariant
                    *added == b,
                    0 <= i <= b.transactions@.len(),
                    mempool.txs@ == remove_all(old(mempool).txs@, b.transactions@.subrange(0, i as int)),
                decreases b.transactions@.len() - i,
            {
                mempool.remove_tx(&added.transactions[i]);
                assert(b.transactions@.subrange(0, i + 1).drop_last() =~= b.transactions@.subrange(0, i as int));
                i += 1;
            }
            assert(b.transactions@.subrange(0, i as int) =~= b.transactions@);
            let res = SubmitBlockResult { accepted: true, message: None };
            assert(submit_outcome(
                old(chain).blocks@,
                chain.blocks@,
                old(mempool).txs@,
                mempool.txs@,
                b,
                res.accepted,
                res.message,
            ));
            Ok(res)
        },
        Err(e) => {
            let res = SubmitBlockResult { accepted: false, message: Some(error_name(e)) };
            assert(submit_outcome(
                old(chain).blocks@,
                chain.blocks@,
                old(mempool).txs@,
                mempool.txs@,
                b,
                res.accepted,
                res.message,
            ));
            Ok(res)
        },
    }
}

/// What `get_blockchain_info` reports, but for the difficulty's float form.
#[derive(Clone, Debug, PartialEq, Eq)]
pub struct ChainSummary {
    pub blocks: u64,
    pub headers: u64,
    /// Hexadecimal digest of the tail block.
    pub best_blockhash: String,
    /// The compact difficulty required of the next block.
    pub difficulty_compact: u32,
    /// The tail block's timestamp.
    pub median_time: u32,
}

/// The figures of `get_blockchain_info` for `chain`.
pub fn chain_summary(chain: &Blockchain) -> (r: ChainSummary)
    requires
        chain.blocks@.len() > 0,
    ensures
        r.blocks == chain.blocks@.len(),
        r.headers == chain.blocks@.len(),
        r.best_blockhash@ == hex_of(block_hash(chain.blocks@.last())),
        r.difficulty_compact == next_difficulty(chain.blocks@),
        r.median_time == chain.blocks@.last().header.time,
{
    let latest = chain.latest_block();
    let hash = latest.double_sha256();
    ChainSummary {
        blocks: chain.len() as u64,
        headers: chain.len() as u64,
        best_blockhash: to_hex(&hash),
        difficulty_compact: adjust_difficulty(chain),
        median_time: latest.header.time,
    }
}

/// The height of the tail, `len - 1`; zero for an empty chain.
pub fn get_block_count(chain: &Blockchain) -> (r: u64)
    ensures
        r == if chain.blocks@.len() > 0 {
            (chain.blocks@.len() - 1) as u64
        } else {
            0
        },
{
    let n = chain.len();
    if n > 0 {
        (n - 1) as u64
    } else {
        0
    }
}

} // verus!
