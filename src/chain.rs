//! The chain: blocks appended at the tail, each linked to the header digest
//! of the one before it.
use vstd::prelude::*;

use std::collections::VecDeque;
use vstd::std_specs::iter::IteratorSpec;

use crate::block::{Block, Header, Transaction, TxView, txs_view};
use crate::codec::{block_hash, header_hash};
use crate::consensus::pow_ok;
use crate::crypto::{Hashable, hashes_equal};
use crate::error::BlockchainError;
use crate::merkle::{compute_merkle_root, merkle_ok, merkle_root_spec};

verus! {

/// An ordered sequence of blocks, addressed by height.
pub struct Blockchain {
    pub blocks: VecDeque<Block>,
}

/// `b` names the header digest of `prev` as its predecessor.
pub open spec fn linked(prev: Block, b: Block) -> bool {
    b.header.prev_hash@ == header_hash(prev.header)
}

/// What full validation checks of the block at height `i`.
pub open spec fn block_valid_at(blocks: Seq<Block>, i: int, skip_pow: bool) -> bool {
    &&& (i > 0 ==> linked(blocks[i - 1], blocks[i]))
    &&& merkle_ok(blocks[i])
    &&& (skip_pow || pow_ok(blocks[i].header))
}

/// Every block links to its predecessor and commits to its transactions,
/// and, unless skipped, meets its proof-of-work target.
pub open spec fn chain_valid(blocks: Seq<Block>, skip_pow: bool) -> bool {
    forall|i: int| 0 <= i < blocks.len() ==> #[trigger] block_valid_at(blocks, i, skip_pow)
}

/// What `add_block` requires of a block to append it after `tail`.
pub open spec fn accepts(tail: Block, b: Block, skip_pow: bool) -> bool {
    linked(tail, b) && merkle_ok(b) && (skip_pow || pow_ok(b.header))
}

/// The block that a template for `txs` on top of `tail` describes.
pub open spec fn template_header(tail: Block, txs: Seq<TxView>, difficulty_compact: u32, timestamp: u32, h: Header) -> bool {
    &&& h.version == 1
    &&& h.time == timestamp
    &&& h.difficulty_compact == difficulty_compact
    &&& h.prev_hash@ == header_hash(tail.header)
    &&& h.merkle_root@ == merkle_root_spec(txs)
}

impl Blockchain {
    /// A chain holding only `genesis_block`.
    pub fn new(genesis_block: Block) -> (r: Blockchain)
        ensures
            r.blocks@ == seq![genesis_block],
    {
        let mut blocks: VecDeque<Block> = VecDeque::new();
        blocks.push_back(genesis_block);
        assert(blocks@ =~= seq![genesis_block]);
        Blockchain { blocks }
    }

    /// The block at the tail.
    pub fn latest_block(&self) -> (r: &Block)
        requires
            self.blocks@.len() > 0,
        ensures
            *r == self.blocks@.last(),
    {
        &self.blocks[self.blocks.len() - 1]
    }

    /// The blocks from genesis to tail.
    pub fn iter(&self) -> (r: std::collections::vec_deque::Iter<'_, Block>)
        ensures
            r.remaining() == self.blocks@.as_ref(),
    {
        self.blocks.iter()
    }

    /// The blocks from tail to genesis.
    pub fn iter_rev(&self) -> (r: std::iter::Rev<std::collections::vec_deque::Iter<'_, Block>>)
        ensures
            r.remaining() == self.blocks@.as_ref().reverse(),
    {
        let it = self.blocks.iter();
        proof {
            broadcast use vstd::std_specs::iter::rev_postcondition;
        }
        it.rev()
    }

    /// Number of blocks.
    pub fn len(&self) -> (r: usize)
        ensures
            r == self.blocks@.len(),
    {
        self.blocks.len()
    }

    pub fn is_empty(&self) -> (r: bool)
        ensures
            r == (self.blocks@.len() == 0),
    {
        self.blocks.len() == 0
    }

    /// The block at `height`, if there is one.
    pub fn get_block_by_height(&self, height: usize) -> (r: Option<&Block>)
        ensures
            height < self.blocks@.len() ==> r == Some(&self.blocks@[height as int]),
            height >= self.blocks@.len() ==> r is None,
    {
        if height < self.blocks.len() {
            Some(&self.blocks[height])
        } else {
            None
        }
    }

    /// The lowest block whose digest is `hash`.
    pub fn find_block(&self, hash: [u8; 32]) -> (r: Option<&Block>)
        ensures
            match r {
                Some(b) => exists|i: int|
                    0 <= i < self.blocks@.len() && *b == self.blocks@[i] && block_hash(
                        self.blocks@[i],
                    ) == hash@ && forall|j: int|
                        0 <= j < i ==> block_hash(#[trigger] self.blocks@[j]) != hash@,
                None => forall|i: int|
                    0 <= i < self.blocks@.len() ==> block_hash(#[trigger] self.blocks@[i])
                        != hash@,
            },
    {
        let mut i: usize = 0;
        while i < self.blocks.len()
            invariant
                0 <= i <= self.blocks@.len(),
                forall|j: int| 0 <= j < i ==> block_hash(#[trigger] self.blocks@[j]) != hash@,
            decreases self.blocks@.len() - i,
        {
            let b = &self.blocks[i];
            let h = b.double_sha256();
            if hashes_equal(&h, &hash) {
                return Some(b);
            }
            i += 1;
        }
        None
    }

    /// Appends `block` after checking, in order, its link to the tail, its
    /// Merkle root and, unless `skip_pow`, its proof of work. A refused
    /// block leaves the chain as it was.
    pub fn add_block(&mut self, block: Block, skip_pow: bool) -> (r: Result<(), BlockchainError>)
        requires
            old(self).blocks@.len() > 0,
        ensures
            !linked(old(self).blocks@.last(), block) ==> r == Err::<(), _>(
                BlockchainError::InvalidPreviousHash,
            ),
            linked(old(self).blocks@.last(), block) && !merkle_ok(block) ==> r == Err::<(), _>(
                BlockchainError::InvalidMerkleRoot,
            ),
            linked(old(self).blocks@.last(), block) && merkle_ok(block) && !skip_pow && !pow_ok(
                block.header,
            ) ==> r == Err::<(), _>(BlockchainError::InvalidPoW),
            accepts(old(self).blocks@.last(), block, skip_pow) ==> r is Ok,
            r is Ok ==> final(self).blocks@ == old(self).blocks@.push(block),
            r is Err ==> final(self).blocks@ == old(self).blocks@,
    {
        let prev_hash = self.latest_block().header.double_sha256();
        if !hashes_equal(&block.header.prev_hash, &prev_hash) {
            return Err(BlockchainError::InvalidPreviousHash);
        }
        if block.validate_merkle_root().is_err() {
            return Err(BlockchainError::InvalidMerkleRoot);
        }
        if !skip_pow && block.header.validate_pow().is_err() {
            return Err(BlockchainError::InvalidPoW);
        }
        self.blocks.push_back(block);
        Ok(())
    }

    /// Full validation with proof of work.
    pub fn validate(&self) -> (r: bool)
        ensures
            r == chain_valid(self.blocks@, false),
    {
        self.validate_with_options(false)
    }

    /// Checks every block in order: the link to its predecessor (not for
    /// the first), its Merkle root, and its proof of work unless skipped.
    pub fn validate_with_options(&self, skip_pow: bool) -> (r: bool)
        ensures
            r == chain_valid(self.blocks@, skip_pow),
    {
        let n = self.blocks.len();
        let mut i: usize = 0;
        while i < n
            invariant
                n == self.blocks@.len(),
                0 <= i <= n,
                forall|j: int| 0 <= j < i ==> #[trigger] block_valid_at(self.blocks@, j, skip_pow),
            decreases n - i,
        {
            let block = &self.blocks[i];
            if i > 0 {
                let prev_hash = self.blocks[i - 1].header.double_sha256();
                if !hashes_equal(&block.header.prev_hash, &prev_hash) {
                    assert(!block_valid_at(self.blocks@, i as int, skip_pow));
                    return false;
                }
            }
            if block.validate_merkle_root().is_err() {
                assert(!block_valid_at(self.blocks@, i as int, skip_pow));
                return false;
            }
            if !skip_pow && block.header.validate_pow().is_err() {
                assert(!block_valid_at(self.blocks@, i as int, skip_pow));
                return false;
            }
            assert(block_valid_at(self.blocks@, i as int, skip_pow));
            i += 1;
        }
        true
    }

    /// An unmined block on top of the tail: version 1, nonce 0, linked to the
    /// tail and committing to `transactions`.
    pub fn create_block_template(
        &self,
        transactions: Vec<Transaction>,
        difficulty_compact: u32,
        timestamp: u32,
    ) -> (r: Block)
        requires
            self.blocks@.len() > 0,
        ensures
            template_header(
                self.blocks@.last(),
                txs_view(transactions@),
                difficulty_compact,
                timestamp,
                r.header,
            ),
            r.header.nonce == 0,
            r.transactions == transactions,
            linked(self.blocks@.last(), r),
            merkle_ok(r),
    {
        let prev_hash = self.latest_block().header.double_sha256();
        let merkle_root = compute_merkle_root(transactions.as_slice());
        let header = Header::new(1, timestamp, difficulty_compact, 0, prev_hash, merkle_root);
        Block::new(header, transactions)
    }
}

} // verus!
