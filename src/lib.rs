//! A minimal proof-of-work chain: block model, canonical encoding, Merkle
//! roots, compact difficulty targets, chain append and mining decisions.

pub mod bignum;
pub mod block;
pub mod chain;
pub mod codec;
pub mod consensus;
pub mod crypto;
pub mod display;
pub mod error;
pub mod mempool;
pub mod merkle;
pub mod miner;
pub mod rpc;
