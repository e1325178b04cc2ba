//! Human-readable renderings of headers, transactions and blocks.
use vstd::prelude::*;

use crate::block::{Block, Header, Transaction};
use crate::crypto::Hashable;

verus! {

/// The lowercase hexadecimal digit for `n < 16`.
pub open spec fn hex_digit(n: u8) -> char {
    seq!['0', '1', '2', '3', '4', '5', '6', '7', '8', '9', 'a', 'b', 'c', 'd', 'e', 'f'][n as int]
}

/// Two lowercase hexadecimal digits per byte, high nibble first.
pub open spec fn hex_of(b: Seq<u8>) -> Seq<char>
    decreases b.len(),
{
    if b.len() == 0 {
        Seq::empty()
    } else {
        hex_of(b.drop_last()) + seq![hex_digit(b.last() / 16), hex_digit(b.last() % 16)]
    }
}

/// Relies on `hex::encode`: two lowercase hexadecimal digits per byte, in
/// order.
#[verifier::external_body]
pub(crate) fn to_hex(b: &[u8]) -> (r: String)
    ensures
        r@ == hex_of(b@),
{
    hex::encode(b)
}

/// Relies on `format!` to render a header summary.
#[verifier::external_body]
fn render_header(hash_hex: &str, time: u32, nonce: u64) -> String {
    format!("Header(hash={}, time={}, nonce={})", hash_hex, time, nonce)
}

/// Relies on `format!` to render a transaction summary.
#[verifier::external_body]
fn render_tx(inputs: usize, outputs: usize, hash_hex: &str) -> String {
    format!("Tx(inputs={}, output={}, hash={})", inputs, outputs, hash_hex)
}

/// Relies on `format!` to render a block summary.
#[verifier::external_body]
fn render_block(hash_hex: &str, txs: usize, header: &str) -> String {
    format!("Block(hash={}, txs={}, header={})", hash_hex, txs, header)
}

impl Header {
    /// `Header(hash=<hex digest>, time=<time>, nonce=<nonce>)`.
    pub fn to_string(&self) -> String {
        let hash = self.double_sha256();
        let hex = to_hex(&hash);
        render_header(hex.as_str(), self.time, self.nonce)
    }
}

impl Transaction {
    /// `Tx(inputs=<count>, output=<count>, hash=<hex digest>)`.
    pub fn to_string(&self) -> String {
        let hash = self.double_sha256();
        let hex = to_hex(&hash);
        render_tx(self.inputs.len(), self.outputs.len(), hex.as_str())
    }
}

impl Block {
    /// `Block(hash=<hex digest>, txs=<count>, header=<header summary>)`.
    pub fn to_string(&self) -> String {
        let hash = self.double_sha256();
        let hex = to_hex(&hash);
        let header = self.header.to_string();
        render_block(hex.as_str(), self.transactions.len(), header.as_str())
    }
}

} // verus!
