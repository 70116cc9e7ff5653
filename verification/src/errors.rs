//! The failures that ledger operations report.
use vstd::prelude::*;

verus! {

/// Why a ledger operation did not complete.
#[derive(Clone, Copy, Debug, PartialEq, Eq, Structural)]
pub enum LedgerError {
    /// The canonical encoder rejected its input.
    EncodingFailure,
    /// A key that the store must hold is absent, or the bytes under it are
    /// not a block stored under its own hash.
    StorageCorruption,
    /// An address is not in the address book.
    UnknownAddress,
    /// The unspent outputs of the sender do not cover the amount.
    InsufficientFunds,
    /// An input refers to a transaction, or to an output of it, that the
    /// caller did not supply.
    MissingReferencedTransaction,
    /// The private key is not a valid signing key.
    InvalidKey,
    /// No nonce in the search range seals the block.
    NonceExhausted,
    /// The clock could not be read.
    ClockUnavailable,
}

impl LedgerError {
    /// A short description of the failure.
    pub fn message(&self) -> (text: &'static str)
        ensures
            text@ == self.spec_message(),
    {
        match self {
            LedgerError::EncodingFailure => "ERROR: Encoding failed",
            LedgerError::StorageCorruption => "ERROR: Block store is corrupted",
            LedgerError::UnknownAddress => "ERROR: Wallet not found",
            LedgerError::InsufficientFunds => "ERROR: Not enough funds",
            LedgerError::MissingReferencedTransaction => "ERROR: Previous transaction is not correct",
            LedgerError::InvalidKey => "ERROR: Invalid private key",
            LedgerError::NonceExhausted => "ERROR: No nonce seals the block",
            LedgerError::ClockUnavailable => "ERROR: Clock unavailable",
        }
    }

    /// The text that [`LedgerError::message`] returns.
    pub open spec fn spec_message(&self) -> Seq<char> {
        match self {
            LedgerError::EncodingFailure => "ERROR: Encoding failed"@,
            LedgerError::StorageCorruption => "ERROR: Block store is corrupted"@,
            LedgerError::UnknownAddress => "ERROR: Wallet not found"@,
            LedgerError::InsufficientFunds => "ERROR: Not enough funds"@,
            LedgerError::MissingReferencedTransaction => "ERROR: Previous transaction is not correct"@,
            LedgerError::InvalidKey => "ERROR: Invalid private key"@,
            LedgerError::NonceExhausted => "ERROR: No nonce seals the block"@,
            LedgerError::ClockUnavailable => "ERROR: Clock unavailable"@,
        }
    }
}

} // verus!
