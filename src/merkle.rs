//! Merkle roots over transaction digests, with Bitcoin's rule that the last
//! entry of an odd-length layer is paired with itself.
use vstd::prelude::*;

use crate::block::{Block, Header, Transaction, TxView, txs_view};
use crate::codec::tx_hash;
use crate::crypto::{Hashable, double_sha256, double_sha256_spec, hashes_equal};
use crate::error::BlockError;

verus! {

/// The digest of two adjacent entries: `double_sha256(left ++ right)`.
pub open spec fn merkle_pair(left: Seq<u8>, right: Seq<u8>) -> Seq<u8> {
    double_sha256_spec(left + right)
}

/// The right partner of entry `2 * i`: the next entry, or itself at the odd end.
pub open spec fn partner(layer: Seq<Seq<u8>>, i: int) -> Seq<u8> {
    if 2 * i + 1 < layer.len() {
        layer[2 * i + 1]
    } else {
        layer[2 * i]
    }
}

/// The layer above `layer`.
pub open spec fn next_layer(layer: Seq<Seq<u8>>) -> Seq<Seq<u8>> {
    Seq::new(((layer.len() + 1) / 2) as nat, |i: int| merkle_pair(layer[2 * i], partner(layer, i)))
}

/// The single entry that remains when layers are folded up from `layer`.
pub open spec fn fold_layers(layer: Seq<Seq<u8>>) -> Seq<u8>
    decreases layer.len(),
{
    if layer.len() <= 1 {
        layer[0]
    } else {
        fold_layers(next_layer(layer))
    }
}

/// The digests of the transactions, in order.
pub open spec fn leaf_layer(txs: Seq<TxView>) -> Seq<Seq<u8>> {
    txs.map_values(|t: TxView| tx_hash(t))
}

/// Thirty-two zero bytes.
pub open spec fn zero_hash() -> Seq<u8> {
    Seq::new(32, |i: int| 0u8)
}

/// The Merkle root of a list of transactions; all zeros for the empty list.
pub open spec fn merkle_root_spec(txs: Seq<TxView>) -> Seq<u8> {
    if txs.len() == 0 {
        zero_hash()
    } else {
        fold_layers(leaf_layer(txs))
    }
}

pub open spec fn layer_view(hashes: Seq<[u8; 32]>) -> Seq<Seq<u8>> {
    hashes.map_values(|h: [u8; 32]| h@)
}

fn pair_digest(left: &[u8; 32], right: &[u8; 32]) -> (r: [u8; 32])
    ensures
        r@ == merkle_pair(left@, right@),
{
    let mut data: Vec<u8> = Vec::with_capacity(64);
    data.extend_from_slice(left);
    data.extend_from_slice(right);
    assert(data@ =~= left@ + right@);
    double_sha256(data.as_slice())
}

fn build_next_layer(hashes: &Vec<[u8; 32]>) -> (r: Vec<[u8; 32]>)
    ensures
        layer_view(r@) == next_layer(layer_view(hashes@)),
        r@.len() == (hashes@.len() + 1) / 2,
{
    let ghost layer = layer_view(hashes@);
    let n = hashes.len();
    let mut next: Vec<[u8; 32]> = Vec::new();
    let mut j: usize = 0;
    while j < n - j
        invariant
            n == hashes@.len(),
            layer == layer_view(hashes@),
            j <= n - j + 1,
            j == next@.len(),
            2 * j <= n + 1,
            forall|k: int| 0 <= k < j ==> #[trigger] next@[k]@ == merkle_pair(layer[2 * k], partner(layer, k)),
        decreases n - j,
    {
        let i = j + j;
        let right = if i + 1 < n {
            &hashes[i + 1]
        } else {
            &hashes[i]
        };
        let d = pair_digest(&hashes[i], right);
        next.push(d);
        j += 1;
    }
    assert(layer_view(next@) =~= next_layer(layer));
    next
}

/// The Merkle root of `transactions`.
pub fn compute_merkle_root(transactions: &[Transaction]) -> (r: [u8; 32])
    ensures
        r@ == merkle_root_spec(txs_view(transactions@)),
{
    if transactions.len() == 0 {
        let z = [0u8; 32];
        assert(z@ =~= zero_hash());
        return z;
    }
    let ghost leaves = leaf_layer(txs_view(transactions@));
    let mut hashes: Vec<[u8; 32]> = Vec::new();
    let mut i: usize = 0;
    while i < transactions.len()
        invariant
            0 <= i <= transactions@.len(),
            leaves == leaf_layer(txs_view(transactions@)),
            layer_view(hashes@) == leaves.subrange(0, i as int),
        decreases transactions@.len() - i,
    {
        let h = transactions[i].double_sha256();
        assert(txs_view(transactions@)[i as int] == transactions@[i as int]@);
        assert(h@ == tx_hash(transactions@[i as int]@));
        assert(leaves[i as int] == tx_hash(transactions@[i as int]@));
        let ghost before = hashes@;
        hashes.push(h);
        assert(layer_view(hashes@) =~= layer_view(before).push(h@));
        assert(leaves.subrange(0, i + 1) =~= leaves.subrange(0, i as int).push(leaves[i as int]));
        assert(layer_view(hashes@) =~= leaves.subrange(0, i + 1));
        i += 1;
    }
    assert(leaves.subrange(0, i as int) =~= leaves);
    while hashes.len() > 1
        invariant
            hashes@.len() >= 1,
            fold_layers(layer_view(hashes@)) == fold_layers(leaves),
        decreases hashes@.len(),
    {
        let next = build_next_layer(&hashes);
        hashes = next;
    }
    hashes[0]
}

/// The Merkle root is a function of the transactions: any two results for the
/// same list are the same bytes.
pub proof fn lemma_merkle_root_deterministic(txs: Seq<TxView>, r1: [u8; 32], r2: [u8; 32])
    requires
        r1@ == merkle_root_spec(txs),
        r2@ == merkle_root_spec(txs),
    ensures
        r1 == r2,
{
    assert(r1 =~= r2);
}

/// The root of the empty list is thirty-two zero bytes.
pub proof fn lemma_merkle_root_empty()
    ensures
        merkle_root_spec(Seq::empty()) == zero_hash(),
{
}

/// The root of a single transaction is that transaction's digest.
pub proof fn lemma_merkle_root_single(t: TxView)
    ensures
        merkle_root_spec(seq![t]) == tx_hash(t),
{
    assert(leaf_layer(seq![t])[0] == tx_hash(t));
}

/// In a layer of odd length the last entry is paired with itself.
pub proof fn lemma_odd_layer_duplicates_last(layer: Seq<Seq<u8>>)
    requires
        layer.len() % 2 == 1,
    ensures
        next_layer(layer).last() == merkle_pair(layer.last(), layer.last()),
{
    let k = (layer.len() - 1) / 2;
    assert(next_layer(layer).len() == k + 1);
    assert(2 * k == layer.len() - 1);
}


/// The block's header commits to exactly its transactions.
pub open spec fn merkle_ok(b: Block) -> bool {
    b.header.merkle_root@ == merkle_root_spec(txs_view(b.transactions@))
}

impl Block {
    /// A block whose header's Merkle root is set from `txs`.
    pub fn new_with_merkle(header: Header, txs: Vec<Transaction>) -> (r: Block)
        ensures
            r.header == (Header { merkle_root: r.header.merkle_root, ..header }),
            r.transactions == txs,
            merkle_ok(r),
    {
        let mut block = Block::new(header, txs);
        let merkle = compute_merkle_root(block.transactions.as_slice());
        block.header.merkle_root = merkle;
        block
    }

    /// Checks the header's Merkle root against the transactions.
    pub fn validate_merkle_root(&self) -> (r: Result<(), BlockError>)
        ensures
            merkle_ok(*self) ==> r is Ok,
            !merkle_ok(*self) ==> r == Err::<(), _>(BlockError::InvalidMerkleRoot),
    {
        let merkle = compute_merkle_root(self.transactions.as_slice());
        if !hashes_equal(&merkle, &self.header.merkle_root) {
            return Err(BlockError::InvalidMerkleRoot);
        }
        Ok(())
    }
}

} // verus!
