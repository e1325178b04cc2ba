//! Error kinds of the library.
use vstd::prelude::*;

verus! {

/// Why a transaction could not be built.
#[derive(Clone, Copy, Debug, PartialEq, Eq, Structural)]
pub enum TransactionError {
    EmptyInputs,
    EmptyOutputs,
}

/// Why a block failed validation.
#[derive(Clone, Copy, Debug, PartialEq, Eq, Structural)]
pub enum BlockError {
    InvalidMerkleRoot,
    EmptyTransactions,
}

/// Why a block was refused by the chain.
#[derive(Clone, Copy, Debug, PartialEq, Eq, Structural)]
pub enum BlockchainError {
    InvalidPreviousHash,
    InvalidMerkleRoot,
    InvalidPoW,
}

/// Why a header failed validation.
#[derive(Clone, Copy, Debug, PartialEq, Eq, Structural)]
pub enum HeaderError {
    InvalidPoW,
}

/// Why bytes could not be produced or read back.
#[derive(Clone, Copy, Debug, PartialEq, Eq, Structural)]
pub enum NetError {
    SerializationError,
    DeserializationError,
}


/// Why a block template could not be turned into a header.
#[derive(Clone, Copy, Debug, PartialEq, Eq, Structural)]
pub enum TemplateError {
    InvalidHex,
    InvalidHashLength,
}

} // verus!
