//! The canonical encoding: the byte strings that are hashed, signed and
//! stored. Values are encoded as plain records, field after field.
use vstd::prelude::*;

verus! {

/// An input as a record: transaction id, output index, signature and public
/// key.
pub type InputFields = (String, i64, Vec<u8>, Vec<u8>);

/// An output as a record: amount and locking key.
pub type OutputFields = (u64, Vec<u8>);

/// A transaction as a record: id, inputs and outputs.
pub type TransactionFields = (String, Vec<InputFields>, Vec<OutputFields>);

/// A block as a record: timestamp, transactions, hash of the predecessor,
/// hash, height and nonce.
pub type BlockFields = (u128, Vec<TransactionFields>, String, String, usize, i32);

/// What an [`InputFields`] holds.
pub type InputRecord = (Seq<char>, i64, Seq<u8>, Seq<u8>);

/// What an [`OutputFields`] holds.
pub type OutputRecord = (u64, Seq<u8>);

/// What a [`TransactionFields`] holds.
pub type TransactionRecord = (Seq<char>, Seq<InputRecord>, Seq<OutputRecord>);

/// What a [`BlockFields`] holds.
pub type BlockRecord = (u128, Seq<TransactionRecord>, Seq<char>, Seq<char>, usize, i32);

/// The canonical encoding of a transaction record, if the encoder accepts
/// it.
pub uninterp spec fn spec_encode_transaction(record: TransactionRecord) -> Option<Seq<u8>>;

/// The canonical encoding of what a block's hash covers: the hash of the
/// predecessor, the transactions, the timestamp, the difficulty and the
/// nonce.
pub uninterp spec fn spec_encode_header(
    prev_hash: Seq<char>,
    transactions: Seq<TransactionRecord>,
    timestamp: u128,
    difficulty: usize,
    nonce: i32,
) -> Option<Seq<u8>>;

/// The canonical encoding of a block record, if the encoder accepts it.
pub uninterp spec fn spec_encode_block(record: BlockRecord) -> Option<Seq<u8>>;

/// The block record that a byte string decodes to, if it decodes to one.
pub uninterp spec fn spec_decode_block(bytes: Seq<u8>) -> Option<BlockRecord>;

/// Calls `bincode::serialize` on a transaction record. Trusted: the result
/// is a function of the record's contents alone; `None` where the encoder
/// reports an error.
#[verifier::external_body]
pub(crate) fn encode_transaction(fields: &TransactionFields) -> (bytes: Option<Vec<u8>>)
    ensures
        match bytes {
            Some(b) => spec_encode_transaction(fields.deep_view()) == Some(b@),
            None => spec_encode_transaction(fields.deep_view()) is None,
        },
{
    bincode::serialize(fields).ok()
}

/// Calls `bincode::serialize` on the five values that a block's hash covers.
/// Trusted: the result is a function of their contents alone; `None` where
/// the encoder reports an error.
#[verifier::external_body]
pub(crate) fn encode_header(
    prev_hash: &String,
    transactions: &Vec<TransactionFields>,
    timestamp: u128,
    difficulty: usize,
    nonce: i32,
) -> (bytes: Option<Vec<u8>>)
    ensures
        match bytes {
            Some(b) => spec_encode_header(
                prev_hash@,
                transactions.deep_view(),
                timestamp,
                difficulty,
                nonce,
            ) == Some(b@),
            None => spec_encode_header(
                prev_hash@,
                transactions.deep_view(),
                timestamp,
                difficulty,
                nonce,
            ) is None,
        },
{
    bincode::serialize(&(prev_hash, transactions, timestamp, difficulty, nonce)).ok()
}

/// Calls `bincode::serialize` on a block record. Trusted: the result is a
/// function of the record's contents alone, and it decodes to the record;
/// `None` where the encoder reports an error.
#[verifier::external_body]
pub(crate) fn encode_block(fields: &BlockFields) -> (bytes: Option<Vec<u8>>)
    ensures
        match bytes {
            Some(b) => {
                &&& spec_encode_block(fields.deep_view()) == Some(b@)
                &&& spec_decode_block(b@) == Some(fields.deep_view())
            },
            None => spec_encode_block(fields.deep_view()) is None,
        },
{
    bincode::serialize(fields).ok()
}

/// Calls `bincode::deserialize` for a block record. Trusted: the result is a
/// function of the bytes alone; `None` where they do not decode to a block
/// record.
#[verifier::external_body]
pub(crate) fn decode_block(bytes: &[u8]) -> (fields: Option<BlockFields>)
    ensures
        match fields {
            Some(f) => spec_decode_block(bytes@) == Some(f.deep_view()),
            None => spec_decode_block(bytes@) is None,
        },
{
    bincode::deserialize::<BlockFields>(bytes).ok()
}

} // verus!
