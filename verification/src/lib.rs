//! A single-node ledger: proof-of-work sealed blocks of value transfers,
//! unspent-output accounting and signed transactions.
pub mod address;
pub mod block;
pub mod blockchain;
pub mod clock;
pub mod codec;
pub mod digest;
pub mod errors;
pub mod hex;
pub mod keys;
pub mod lookup;
pub mod transaction;
pub mod tx;
pub mod utxo;
pub mod wallet;
