//! Pending transactions in insertion order. Duplicates are allowed; removal
//! is by digest.
use vstd::prelude::*;

use crate::block::{Transaction, txs_view};
use crate::codec::tx_hash;
use crate::crypto::{Hashable, hashes_equal};
use crate::error::NetError;

verus! {

pub struct Mempool {
    pub txs: Vec<Transaction>,
}

/// `txs` without every transaction whose digest is `h`, order kept.
pub open spec fn without_hash(txs: Seq<Transaction>, h: Seq<u8>) -> Seq<Transaction>
    decreases txs.len(),
{
    if txs.len() == 0 {
        Seq::empty()
    } else {
        let kept = without_hash(txs.drop_last(), h);
        if tx_hash(txs.last()@) == h {
            kept
        } else {
            kept.push(txs.last())
        }
    }
}

impl Mempool {
    pub fn new() -> (r: Mempool)
        ensures
            r.txs@ == Seq::<Transaction>::empty(),
    {
        Mempool { txs: Vec::new() }
    }

    /// Appends `tx` at the end.
    pub fn add_tx(&mut self, tx: Transaction)
        ensures
            final(self).txs@ == old(self).txs@.push(tx),
    {
        self.txs.push(tx);
    }

    /// Drops every pending transaction with the same digest as `tx_to_remove`.
    pub fn remove_tx(&mut self, tx_to_remove: &Transaction)
        ensures
            final(self).txs@ == without_hash(old(self).txs@, tx_hash(tx_to_remove@)),
    {
        let target_hash = tx_to_remove.double_sha256();
        let ghost h = tx_hash(tx_to_remove@);
        let ghost orig = self.txs@;
        let n0 = self.txs.len();
        let mut i: usize = 0;
        let mut j: usize = 0;
        while i < self.txs.len()
            invariant
                target_hash@ == h,
                n0 == orig.len(),
                0 <= j <= orig.len(),
                i == without_hash(orig.subrange(0, j as int), h).len(),
                self.txs@ == without_hash(orig.subrange(0, j as int), h) + orig.subrange(
                    j as int,
                    orig.len() as int,
                ),
            decreases self.txs@.len() - i,
        {
            assert(self.txs@.len() == i + (orig.len() - j));
            assert(j < orig.len());
            proof {
                assert(orig.subrange(0, j + 1).drop_last() =~= orig.subrange(0, j as int));
                assert(self.txs@[i as int] == orig[j as int]);
            }
            let existing = self.txs[i].double_sha256();
            if hashes_equal(&existing, &target_hash) {
                self.txs.remove(i);
                assert(self.txs@ =~= without_hash(orig.subrange(0, j + 1), h) + orig.subrange(
                    j + 1,
                    orig.len() as int,
                ));
            } else {
                i += 1;
                assert(self.txs@ =~= without_hash(orig.subrange(0, j + 1), h) + orig.subrange(
                    j + 1,
                    orig.len() as int,
                ));
            }
            j += 1;
        }
        assert(j == orig.len());
        assert(orig.subrange(0, j as int) =~= orig);
        assert(self.txs@ =~= without_hash(orig, h));
    }

    pub fn is_empty(&self) -> (r: bool)
        ensures
            r == (self.txs@.len() == 0),
    {
        self.txs.len() == 0
    }

    /// Takes up to `n` transactions from the front; `None` when the pool is
    /// empty.
    pub fn get_next_transaction(&mut self, n: usize) -> (r: Option<Vec<Transaction>>)
        ensures
            old(self).txs@.len() == 0 ==> r is None && final(self).txs@ == old(self).txs@,
            old(self).txs@.len() > 0 ==> {
                let count = if n < old(self).txs@.len() {
                    n as int
                } else {
                    old(self).txs@.len() as int
                };
                &&& r matches Some(taken)
                &&& taken@ == old(self).txs@.subrange(0, count)
                &&& final(self).txs@ == old(self).txs@.subrange(count, old(self).txs@.len() as int)
            },
    {
        if self.txs.len() == 0 {
            return None;
        }
        let count = if n < self.txs.len() {
            n
        } else {
            self.txs.len()
        };
        let mut rest = self.txs.split_off(count);
        std::mem::swap(&mut self.txs, &mut rest);
        Some(rest)
    }

    /// Copies of up to `n` transactions from the front, leaving the pool as
    /// it is; a template built from them takes nothing out of the pool.
    pub fn peek_transactions(&self, n: usize) -> (r: Vec<Transaction>)
        ensures
            txs_view(r@) == txs_view(
                self.txs@.subrange(
                    0,
                    if n < self.txs@.len() {
                        n as int
                    } else {
                        self.txs@.len() as int
                    },
                ),
            ),
    {
        let count = if n < self.txs.len() {
            n
        } else {
            self.txs.len()
        };
        let mut out: Vec<Transaction> = Vec::new();
        let mut i: usize = 0;
        while i < count
            invariant
                count <= self.txs@.len(),
                0 <= i <= count,
                txs_view(out@) == txs_view(self.txs@.subrange(0, i as int)),
            decreases count - i,
        {
            let t = self.txs[i].copy();
            let ghost before = out@;
            let ghost tv = t@;
            out.push(t);
            assert(txs_view(out@) =~= txs_view(before).push(tv));
            assert(txs_view(self.txs@.subrange(0, i + 1)) =~= txs_view(self.txs@.subrange(0, i as int)).push(tv));
            i += 1;
        }
        out
    }

    pub fn len(&self) -> (r: usize)
        ensures
            r == self.txs@.len(),
    {
        self.txs.len()
    }

    /// The pool keeps nothing on disk; saving always succeeds.
    pub fn save(&self) -> (r: Result<(), NetError>)
        ensures
            r is Ok,
    {
        Ok(())
    }

    /// The pool keeps nothing on disk; loading gives an empty pool.
    pub fn load() -> (r: Mempool)
        ensures
            r.txs@ == Seq::<Transaction>::empty(),
    {
        Mempool::new()
    }
}

} // verus!
