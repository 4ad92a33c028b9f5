use vstd::prelude::*;

verus! {

/// The ways a ledger operation can fail.
#[derive(Debug, Clone, Copy, PartialEq, Eq, Structural)]
pub enum LedgerError {
    /// A persistent table could not be read or written.
    StoreError,
    /// A transaction referenced by an input is not in the chain.
    TransactionNotFound,
    /// The spendable outputs of an address do not cover the amount asked for.
    InsufficientFunds,
    /// A transaction in a batch failed verification.
    InvalidTransaction,
    /// An address is not valid base58 with a version byte and checksum.
    InvalidAddress,
    /// Stored bytes, a key or a signature could not be decoded.
    DecodeError,
    /// No nonce below the mining bound gives a hash under the target.
    MiningExhausted,
}

} // verus!
