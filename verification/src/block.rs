//! Blocks and their sealing by proof of work.
use vstd::prelude::*;
use crate::clock::now_millis;
use crate::codec::BlockFields;
use crate::codec::BlockRecord;
use crate::codec::encode_header;
use crate::codec::spec_encode_header;
use crate::codec::TransactionFields;
use crate::codec::TransactionRecord;
use crate::digest::sha256;
use crate::digest::spec_sha256;
use crate::errors::LedgerError;
use crate::hex::has_leading_zeros;
use crate::hex::spec_hex;
use crate::hex::spec_leading_zeros;
use crate::hex::to_hex;
use crate::lookup::lemma_first_failing_is;
use crate::lookup::lemma_first_failing_none;
use crate::lookup::spec_first_failing;
use crate::transaction::Transaction;
use crate::transaction::TransactionView;

verus! {

/// The number of leading zero digits that the hash of a block of the chain
/// must have.
pub const TARGET_HEXT: usize = 4;

/// The number of characters of the hash of a sealed block.
pub const HASH_TEXT_LEN: usize = 64;

/// The last nonce that sealing a block of the chain tries.
pub const MAX_NONCE: i32 = i32::MAX;

/// The records of a sequence of transactions.
pub open spec fn spec_transaction_records(transactions: Seq<TransactionView>) -> Seq<
    TransactionRecord,
> {
    Seq::new(transactions.len(), |i: int| transactions[i].record())
}

/// The transactions that a sequence of records stands for.
pub open spec fn spec_transactions_of(records: Seq<TransactionRecord>) -> Seq<TransactionView> {
    Seq::new(records.len(), |i: int| TransactionView::of_record(records[i]))
}

/// What the search for a nonce works on: all that a block's hash covers but
/// the nonce.
pub struct Candidate {
    pub prev_hash: Seq<char>,
    pub transactions: Seq<TransactionView>,
    pub timestamp: u128,
    pub difficulty: usize,
}

impl Candidate {
    /// The hash with `nonce`: the SHA-256 digest of the canonical encoding
    /// of the hash of the predecessor, the transactions, the timestamp, the
    /// difficulty and the nonce. `None` where the encoder rejects them.
    pub open spec fn digest(self, nonce: i32) -> Option<Seq<u8>> {
        match spec_encode_header(
            self.prev_hash,
            spec_transaction_records(self.transactions),
            self.timestamp,
            self.difficulty,
            nonce,
        ) {
            Some(bytes) => Some(spec_sha256(bytes)),
            None => None,
        }
    }

    /// Whether `nonce` is proof of work: the hexadecimal text of the hash
    /// starts with as many zeros as the difficulty asks for.
    pub open spec fn sealed_by(self, nonce: i32) -> bool {
        self.digest(nonce) is Some && spec_leading_zeros(
            spec_hex(self.digest(nonce).unwrap()),
            self.difficulty as nat,
        )
    }

    /// Whether the search goes on after `nonce`: the hash is there and is
    /// no proof of work.
    pub open spec fn passes(self, nonce: int) -> bool {
        self.digest(nonce as i32) is Some && !self.sealed_by(nonce as i32)
    }

    /// The nonce at which the search from 0 to `max_nonce` stops;
    /// `max_nonce + 1` where it stops at none.
    pub open spec fn first_stop(self, max_nonce: i32) -> int {
        spec_first_failing(|n: int| self.passes(n), 0, max_nonce + 1)
    }

    /// How the search from 0 to `max_nonce` ends: with the first nonce that
    /// is proof of work, or with the reason why there is none.
    pub open spec fn search(self, max_nonce: i32) -> Result<i32, LedgerError> {
        let stop = self.first_stop(max_nonce);
        if stop > max_nonce {
            Err(LedgerError::NonceExhausted)
        } else if self.digest(stop as i32) is None {
            Err(LedgerError::EncodingFailure)
        } else {
            Ok(stop as i32)
        }
    }
}

/// What the search for a nonce works on, made of its four parts.
pub open spec fn spec_candidate(
    prev_hash: Seq<char>,
    transactions: Seq<TransactionView>,
    timestamp: u128,
    difficulty: usize,
) -> Candidate {
    Candidate { prev_hash, transactions, timestamp, difficulty }
}

/// What a block holds.
pub struct BlockView {
    pub timestamp: u128,
    pub transactions: Seq<TransactionView>,
    pub prev_hash: Seq<char>,
    pub hash: Seq<char>,
    pub height: usize,
    pub nonce: i32,
}

impl BlockView {
    /// What the block's hash covers but the nonce, at `difficulty`.
    pub open spec fn candidate(self, difficulty: usize) -> Candidate {
        Candidate {
            prev_hash: self.prev_hash,
            transactions: self.transactions,
            timestamp: self.timestamp,
            difficulty: difficulty,
        }
    }

    /// Whether the block is sealed at `difficulty`: its hash is the
    /// hexadecimal text of the digest of what it covers, and starts with
    /// `difficulty` zeros.
    pub open spec fn is_sealed(self, difficulty: usize) -> bool {
        &&& self.candidate(difficulty).digest(self.nonce) is Some
        &&& self.hash == spec_hex(self.candidate(difficulty).digest(self.nonce).unwrap())
        &&& spec_leading_zeros(self.hash, difficulty as nat)
    }

    /// The block as a record of the canonical encoding.
    pub open spec fn record(self) -> BlockRecord {
        (
            self.timestamp,
            spec_transaction_records(self.transactions),
            self.prev_hash,
            self.hash,
            self.height,
            self.nonce,
        )
    }

    /// The block that a record stands for.
    pub open spec fn of_record(record: BlockRecord) -> BlockView {
        BlockView {
            timestamp: record.0,
            transactions: spec_transactions_of(record.1),
            prev_hash: record.2,
            hash: record.3,
            height: record.4,
            nonce: record.5,
        }
    }
}

/// Reading the record of a block gives the block back.
pub proof fn lemma_block_record_round_trip(block: BlockView)
    ensures
        BlockView::of_record(block.record()) == block,
{
    assert forall|i: int| 0 <= i < block.transactions.len() implies TransactionView::of_record(
        #[trigger] block.transactions[i].record(),
    ) == block.transactions[i] by {
        crate::transaction::lemma_record_round_trip(block.transactions[i]);
    }
    assert(spec_transactions_of(spec_transaction_records(block.transactions))
        =~= block.transactions);
}

/// The block that sealing makes of its arguments and the nonce found.
pub open spec fn spec_sealed_block(
    transactions: Seq<TransactionView>,
    prev_hash: Seq<char>,
    height: usize,
    timestamp: u128,
    difficulty: usize,
    nonce: i32,
) -> BlockView {
    let candidate = Candidate { prev_hash, transactions, timestamp, difficulty };
    BlockView {
        timestamp: timestamp,
        transactions: transactions,
        prev_hash: prev_hash,
        hash: spec_hex(candidate.digest(nonce).unwrap()),
        height: height,
        nonce: nonce,
    }
}

/// A list of transactions, sealed by a nonce and linked to its predecessor
/// by the predecessor's hash.
#[derive(Debug)]
pub struct Block {
    timestamp: u128,
    transactions: Vec<Transaction>,
    prev_hash: String,
    hash: String,
    height: usize,
    nonce: i32,
}

impl View for Block {
    type V = BlockView;

    closed spec fn view(&self) -> BlockView {
        BlockView {
            timestamp: self.timestamp,
            transactions: self.transactions.deep_view(),
            prev_hash: self.prev_hash@,
            hash: self.hash@,
            height: self.height,
            nonce: self.nonce,
        }
    }
}

impl DeepView for Block {
    type V = BlockView;

    open spec fn deep_view(&self) -> BlockView {
        self@
    }
}

/// Copies a list of transactions.
pub fn clone_transactions(transactions: &Vec<Transaction>) -> (copy: Vec<Transaction>)
    ensures
        copy.deep_view() == transactions.deep_view(),
{
    let mut copy: Vec<Transaction> = Vec::new();
    let mut i: usize = 0;
    while i < transactions.len()
        invariant
            i <= transactions@.len(),
            copy@.len() == i,
            forall|k: int| 0 <= k < i ==> (#[trigger] copy@[k])@ == transactions@[k]@,
        decreases transactions.len() - i,
    {
        copy.push(transactions[i].clone());
        i += 1;
    }
    assert(copy.deep_view() =~= transactions.deep_view());
    copy
}

impl Clone for Block {
    fn clone(&self) -> (copy: Block)
        ensures
            copy@ == self@,
    {
        Block {
            timestamp: self.timestamp,
            transactions: clone_transactions(&self.transactions),
            prev_hash: self.prev_hash.clone(),
            hash: self.hash.clone(),
            height: self.height,
            nonce: self.nonce,
        }
    }
}

fn transaction_fields(transactions: &Vec<Transaction>) -> (fields: Vec<TransactionFields>)
    ensures
        fields.deep_view() == spec_transaction_records(transactions.deep_view()),
{
    let mut fields: Vec<TransactionFields> = Vec::new();
    let mut i: usize = 0;
    while i < transactions.len()
        invariant
            i <= transactions@.len(),
            fields@.len() == i,
            forall|k: int|
                0 <= k < i ==> (#[trigger] fields@[k]).deep_view() == transactions@[k]@.record(),
        decreases transactions.len() - i,
    {
        fields.push(transactions[i].fields());
        i += 1;
    }
    assert(fields.deep_view() =~= spec_transaction_records(transactions.deep_view()));
    fields
}

fn transactions_from_fields(fields: &Vec<TransactionFields>) -> (transactions: Vec<Transaction>)
    ensures
        transactions.deep_view() == spec_transactions_of(fields.deep_view()),
{
    let mut transactions: Vec<Transaction> = Vec::new();
    let mut i: usize = 0;
    while i < fields.len()
        invariant
            i <= fields@.len(),
            transactions@.len() == i,
            forall|k: int|
                0 <= k < i ==> (#[trigger] transactions@[k])@ == TransactionView::of_record(
                    fields@[k].deep_view(),
                ),
        decreases fields.len() - i,
    {
        transactions.push(Transaction::from_fields(&fields[i]));
        i += 1;
    }
    assert(transactions.deep_view() =~= spec_transactions_of(fields.deep_view()));
    transactions
}

impl Block {
    /// Makes a block of the chain: stamps it with the current time and seals
    /// it at the chain's difficulty, trying every nonce. The block is the
    /// one that sealing makes for its timestamp.
    pub fn new(transactions: Vec<Transaction>, prev_hash: String, height: usize) -> (made: Result<
        Block,
        LedgerError,
    >)
        ensures
            match made {
                Ok(block) => {
                    let candidate = Candidate {
                        prev_hash: prev_hash@,
                        transactions: transactions.deep_view(),
                        timestamp: block@.timestamp,
                        difficulty: TARGET_HEXT,
                    };
                    &&& candidate.search(MAX_NONCE) is Ok
                    &&& block@ == spec_sealed_block(
                        transactions.deep_view(),
                        prev_hash@,
                        height,
                        block@.timestamp,
                        TARGET_HEXT,
                        candidate.search(MAX_NONCE)->Ok_0,
                    )
                    &&& block@.is_sealed(TARGET_HEXT)
                    &&& block@.hash.len() == HASH_TEXT_LEN
                },
                Err(e) => e == LedgerError::ClockUnavailable || exists|timestamp: u128|
                    (#[trigger] spec_candidate(
                        prev_hash@,
                        transactions.deep_view(),
                        timestamp,
                        TARGET_HEXT,
                    )).search(MAX_NONCE) == Err::<i32, LedgerError>(e),
            },
    {
        let ghost listed = transactions.deep_view();
        match now_millis() {
            Some(timestamp) => match Block::seal(
                transactions,
                prev_hash,
                height,
                timestamp,
                TARGET_HEXT,
                MAX_NONCE,
            ) {
                Ok(block) => Ok(block),
                Err(e) => {
                    assert(spec_candidate(prev_hash@, listed, timestamp, TARGET_HEXT).search(
                        MAX_NONCE,
                    ) == Err::<i32, LedgerError>(e));
                    Err(e)
                },
            },
            None => Err(LedgerError::ClockUnavailable),
        }
    }

    /// Seals a block: tries the nonces from 0 to `max_nonce` in turn and
    /// takes the first whose hash, as hexadecimal text, starts with
    /// `difficulty` zeros. Fails with `EncodingFailure` at the first nonce
    /// at which the encoder rejects the block, and with `NonceExhausted`
    /// where no nonce up to `max_nonce` is proof of work.
    ///
    /// The hash of the sealed block starts with `difficulty` zeros, and
    /// hashing the block again gives its hash.
    pub fn seal(
        transactions: Vec<Transaction>,
        prev_hash: String,
        height: usize,
        timestamp: u128,
        difficulty: usize,
        max_nonce: i32,
    ) -> (made: Result<Block, LedgerError>)
        ensures
            match made {
                Ok(block) => {
                    let candidate = Candidate {
                        prev_hash: prev_hash@,
                        transactions: transactions.deep_view(),
                        timestamp: timestamp,
                        difficulty: difficulty,
                    };
                    &&& candidate.search(max_nonce) is Ok
                    &&& block@ == spec_sealed_block(
                        transactions.deep_view(),
                        prev_hash@,
                        height,
                        timestamp,
                        difficulty,
                        candidate.search(max_nonce)->Ok_0,
                    )
                    &&& block@.is_sealed(difficulty)
                    &&& block@.hash.len() == HASH_TEXT_LEN
                },
                Err(e) => (Candidate {
                    prev_hash: prev_hash@,
                    transactions: transactions.deep_view(),
                    timestamp: timestamp,
                    difficulty: difficulty,
                }).search(max_nonce) == Err::<i32, LedgerError>(e),
            },
    {
        let ghost candidate = Candidate {
            prev_hash: prev_hash@,
            transactions: transactions.deep_view(),
            timestamp: timestamp,
            difficulty: difficulty,
        };
        let ghost passes = |n: int| candidate.passes(n);
        if max_nonce < 0 {
            assert(candidate.first_stop(max_nonce) == max_nonce + 1);
            return Err(LedgerError::NonceExhausted);
        }
        let fields = transaction_fields(&transactions);
        let mut next: i64 = 0;
        while next <= max_nonce as i64
            invariant
                0 <= next <= max_nonce as i64 + 1,
                passes == (|n: int| candidate.passes(n)),
                candidate == (Candidate {
                    prev_hash: prev_hash@,
                    transactions: transactions.deep_view(),
                    timestamp: timestamp,
                    difficulty: difficulty,
                }),
                fields.deep_view() == spec_transaction_records(transactions.deep_view()),
                forall|k: int| 0 <= k < next ==> #[trigger] passes(k),
            decreases max_nonce as i64 + 1 - next,
        {
            let nonce = next as i32;
            match encode_header(&prev_hash, &fields, timestamp, difficulty, nonce) {
                None => {
                    proof {
                        assert(!passes(next as int));
                        lemma_first_failing_is(passes, 0, next as int, max_nonce + 1);
                    }
                    return Err(LedgerError::EncodingFailure);
                },
                Some(bytes) => {
                    let digest = sha256(bytes.as_slice());
                    if has_leading_zeros(digest.as_slice(), difficulty) {
                        proof {
                            assert(!passes(next as int));
                            lemma_first_failing_is(passes, 0, next as int, max_nonce + 1);
                        }
                        let hash = to_hex(digest.as_slice());
                        return Ok(Block { timestamp, transactions, prev_hash, hash, height, nonce });
                    }
                    assert(passes(next as int));
                },
            }
            next += 1;
        }
        proof {
            lemma_first_failing_none(passes, 0, max_nonce + 1);
        }
        Err(LedgerError::NonceExhausted)
    }

    /// Makes a block from its parts, as they are given.
    pub fn from_parts(
        timestamp: u128,
        transactions: Vec<Transaction>,
        prev_hash: String,
        hash: String,
        height: usize,
        nonce: i32,
    ) -> (block: Block)
        ensures
            block@ == (BlockView {
                timestamp: timestamp,
                transactions: transactions.deep_view(),
                prev_hash: prev_hash@,
                hash: hash@,
                height: height,
                nonce: nonce,
            }),
    {
        Block { timestamp, transactions, prev_hash, hash, height, nonce }
    }

    /// Returns the timestamp: milliseconds since the Unix epoch.
    pub fn get_timestamp(&self) -> (timestamp: u128)
        ensures
            timestamp == self@.timestamp,
    {
        self.timestamp
    }

    /// Returns the hash of the predecessor.
    pub fn get_prev_hash(&self) -> (prev_hash: String)
        ensures
            prev_hash@ == self@.prev_hash,
    {
        self.prev_hash.clone()
    }

    /// Returns the hash.
    pub fn get_hash(&self) -> (hash: String)
        ensures
            hash@ == self@.hash,
    {
        self.hash.clone()
    }

    /// Returns the height.
    pub fn get_height(&self) -> (height: usize)
        ensures
            height == self@.height,
    {
        self.height
    }

    /// Returns the nonce.
    pub fn get_nonce(&self) -> (nonce: i32)
        ensures
            nonce == self@.nonce,
    {
        self.nonce
    }

    /// Returns the transactions.
    pub fn get_transactions(&self) -> (transactions: &Vec<Transaction>)
        ensures
            transactions.deep_view() == self@.transactions,
    {
        &self.transactions
    }

    /// Encodes what the hash covers at `difficulty`. `None` where the
    /// encoder rejects it.
    pub fn prepare_hash(&self, difficulty: usize) -> (bytes: Option<Vec<u8>>)
        ensures
            match bytes {
                Some(b) => self@.candidate(difficulty).digest(self@.nonce) == Some(spec_sha256(b@)),
                None => self@.candidate(difficulty).digest(self@.nonce) is None,
            },
    {
        let fields = transaction_fields(&self.transactions);
        encode_header(&self.prev_hash, &fields, self.timestamp, difficulty, self.nonce)
    }

    /// Tests the proof of work at `difficulty`: hashes the block with its
    /// nonce and tells whether the hexadecimal text of that hash starts with
    /// `difficulty` zeros. The stored hash plays no part. Fails where the
    /// encoder rejects the block.
    pub fn validate(&self, difficulty: usize) -> (valid: Result<bool, LedgerError>)
        ensures
            match valid {
                Ok(ok) => {
                    &&& self@.candidate(difficulty).digest(self@.nonce) is Some
                    &&& ok == self@.candidate(difficulty).sealed_by(self@.nonce)
                },
                Err(e) => e == LedgerError::EncodingFailure && self@.candidate(difficulty).digest(
                    self@.nonce,
                ) is None,
            },
    {
        match self.prepare_hash(difficulty) {
            Some(bytes) => {
                let digest = sha256(bytes.as_slice());
                Ok(has_leading_zeros(digest.as_slice(), difficulty))
            },
            None => Err(LedgerError::EncodingFailure),
        }
    }

    /// Audits the seal at `difficulty`: hashes the block again and tells
    /// whether the stored hash is the hexadecimal text of that hash and
    /// starts with `difficulty` zeros. Fails where the encoder rejects the
    /// block.
    pub fn audit_seal(&self, difficulty: usize) -> (sealed: Result<bool, LedgerError>)
        ensures
            match sealed {
                Ok(ok) => {
                    &&& self@.candidate(difficulty).digest(self@.nonce) is Some
                    &&& ok == self@.is_sealed(difficulty)
                },
                Err(e) => e == LedgerError::EncodingFailure && self@.candidate(difficulty).digest(
                    self@.nonce,
                ) is None,
            },
    {
        match self.prepare_hash(difficulty) {
            Some(bytes) => {
                let digest = sha256(bytes.as_slice());
                let text = to_hex(digest.as_slice());
                Ok(text == self.hash && has_leading_zeros(digest.as_slice(), difficulty))
            },
            None => Err(LedgerError::EncodingFailure),
        }
    }

    /// Writes the block as a record of the canonical encoding.
    pub fn fields(&self) -> (fields: BlockFields)
        ensures
            fields.deep_view() == self@.record(),
    {
        (
            self.timestamp,
            transaction_fields(&self.transactions),
            self.prev_hash.clone(),
            self.hash.clone(),
            self.height,
            self.nonce,
        )
    }

    /// Reads a block from a record of the canonical encoding.
    pub fn from_fields(fields: &BlockFields) -> (block: Block)
        ensures
            block@ == BlockView::of_record(fields.deep_view()),
    {
        Block {
            timestamp: fields.0,
            transactions: transactions_from_fields(&fields.1),
            prev_hash: fields.2.clone(),
            hash: fields.3.clone(),
            height: fields.4,
            nonce: fields.5,
        }
    }
}

} // verus!
