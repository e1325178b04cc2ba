//! The block model: transactions, headers and blocks.
use vstd::prelude::*;

use crate::error::TransactionError;

verus! {

/// A transaction: opaque input and output byte strings.
#[derive(Clone, Debug, PartialEq, Eq)]
pub struct Transaction {
    pub inputs: Vec<Vec<u8>>,
    pub outputs: Vec<Vec<u8>>,
}

/// What a transaction holds, as byte sequences.
pub struct TxView {
    pub inputs: Seq<Seq<u8>>,
    pub outputs: Seq<Seq<u8>>,
}

impl View for Transaction {
    type V = TxView;

    open spec fn view(&self) -> TxView {
        TxView { inputs: self.inputs.deep_view(), outputs: self.outputs.deep_view() }
    }
}

/// A copy of a list of byte strings.
fn copy_byte_lists(v: &Vec<Vec<u8>>) -> (r: Vec<Vec<u8>>)
    ensures
        r.deep_view() == v.deep_view(),
{
    let mut out: Vec<Vec<u8>> = Vec::new();
    let mut i: usize = 0;
    while i < v.len()
        invariant
            0 <= i <= v@.len(),
            out.deep_view() == v.deep_view().subrange(0, i as int),
        decreases v@.len() - i,
    {
        let item = vstd::slice::slice_to_vec(v[i].as_slice());
        let ghost before = out.deep_view();
        assert(item.deep_view() =~= v.deep_view()[i as int]);
        let ghost iv = item.deep_view();
        out.push(item);
        assert(out.deep_view() =~= before.push(iv));
        assert(v.deep_view().subrange(0, i + 1) =~= v.deep_view().subrange(0, i as int).push(iv));
        i += 1;
    }
    assert(v.deep_view().subrange(0, i as int) =~= v.deep_view());
    out
}

impl Transaction {
    /// A transaction with the same inputs and outputs.
    pub fn copy(&self) -> (r: Transaction)
        ensures
            r@ == self@,
    {
        Transaction { inputs: copy_byte_lists(&self.inputs), outputs: copy_byte_lists(&self.outputs) }
    }

    /// Builds a transaction; both sides must be non-empty.
    pub fn new(inputs: Vec<Vec<u8>>, outputs: Vec<Vec<u8>>) -> (r: Result<Transaction, TransactionError>)
        ensures
            inputs@.len() == 0 ==> r == Err::<Transaction, _>(TransactionError::EmptyInputs),
            inputs@.len() != 0 && outputs@.len() == 0 ==> r == Err::<Transaction, _>(
                TransactionError::EmptyOutputs,
            ),
            inputs@.len() != 0 && outputs@.len() != 0 ==> (r matches Ok(t) && t.inputs == inputs
                && t.outputs == outputs),
    {
        if inputs.len() == 0 {
            return Err(TransactionError::EmptyInputs);
        }
        if outputs.len() == 0 {
            return Err(TransactionError::EmptyOutputs);
        }
        Ok(Transaction { inputs, outputs })
    }
}

/// A block header. Its canonical encoding is the proof-of-work preimage.
#[derive(Clone, Copy, Debug, PartialEq, Eq)]
pub struct Header {
    pub version: u32,
    pub time: u32,
    pub difficulty_compact: u32,
    pub nonce: u64,
    pub prev_hash: [u8; 32],
    pub merkle_root: [u8; 32],
}

/// The fields of a header, with the two digests as byte sequences.
pub struct HeaderView {
    pub version: u32,
    pub time: u32,
    pub difficulty_compact: u32,
    pub nonce: u64,
    pub prev_hash: Seq<u8>,
    pub merkle_root: Seq<u8>,
}

impl View for Header {
    type V = HeaderView;

    open spec fn view(&self) -> HeaderView {
        HeaderView {
            version: self.version,
            time: self.time,
            difficulty_compact: self.difficulty_compact,
            nonce: self.nonce,
            prev_hash: self.prev_hash@,
            merkle_root: self.merkle_root@,
        }
    }
}

impl Header {
    pub fn new(
        version: u32,
        time: u32,
        difficulty_compact: u32,
        nonce: u64,
        prev_hash: [u8; 32],
        merkle_root: [u8; 32],
    ) -> (r: Header)
        ensures
            r == (Header { version, time, difficulty_compact, nonce, prev_hash, merkle_root }),
    {
        Header { version, time, difficulty_compact, nonce, prev_hash, merkle_root }
    }
}

/// Two headers with the same view are the same header.
pub proof fn lemma_header_view_injective(a: Header, b: Header)
    requires
        a@ == b@,
    ensures
        a == b,
{
    assert(a.prev_hash =~= b.prev_hash);
    assert(a.merkle_root =~= b.merkle_root);
}

/// A header together with its transactions.
#[derive(Clone, Debug, PartialEq, Eq)]
pub struct Block {
    pub header: Header,
    pub transactions: Vec<Transaction>,
}

pub struct BlockView {
    pub header: HeaderView,
    pub transactions: Seq<TxView>,
}

impl View for Block {
    type V = BlockView;

    open spec fn view(&self) -> BlockView {
        BlockView { header: self.header@, transactions: txs_view(self.transactions@) }
    }
}

/// The views of a sequence of transactions.
pub open spec fn txs_view(txs: Seq<Transaction>) -> Seq<TxView> {
    txs.map_values(|t: Transaction| t@)
}

impl Block {
    pub fn new(header: Header, transactions: Vec<Transaction>) -> (r: Block)
        ensures
            r.header == header,
            r.transactions == transactions,
    {
        Block { header, transactions }
    }
}

} // verus!
