//! Transactions: building them, naming them by their content, signing their
//! inputs and verifying the signatures.
use vstd::prelude::*;
use vstd::slice::slice_to_vec;
use vstd::string::StrSliceExecFns;
use vstd::string::StringExecFns;
use vstd::utf8::encode_utf8;
use crate::blockchain::Blockchain;
use crate::blockchain::ChainView;
use crate::codec::encode_transaction;
use crate::codec::InputFields;
use crate::codec::InputRecord;
use crate::codec::OutputFields;
use crate::codec::OutputRecord;
use crate::codec::spec_encode_transaction;
use crate::codec::TransactionFields;
use crate::codec::TransactionRecord;
use crate::digest::sha256;
use crate::digest::SHA256_LEN;
use crate::digest::spec_sha256;
use crate::errors::LedgerError;
use crate::hex::spec_hex;
use crate::hex::to_hex;
use crate::keys::schnorr_sign;
use crate::keys::schnorr_verify;
use crate::keys::spec_public_key;
use crate::keys::spec_schnorr_sign;
use crate::keys::spec_schnorr_verify;
use crate::lookup::lemma_first_failing;
use crate::lookup::lemma_first_failing_is;
use crate::lookup::lemma_first_failing_none;
use crate::lookup::lemma_index_is;
use crate::lookup::lemma_index_none;
use crate::lookup::spec_first_failing;
use crate::lookup::spec_index_of;
use crate::tx::COINBASE_VOUT;
use crate::tx::InputView;
use crate::tx::OutputView;
use crate::tx::spec_locking_key;
use crate::tx::TXInput;
use crate::tx::TXOutput;
use crate::utxo::lemma_selection_suffices;
use crate::utxo::OutPointView;
use crate::utxo::spec_balance;
use crate::utxo::spec_point_total;
use crate::utxo::spec_selected;
use crate::utxo::spec_unspent_outputs;
use crate::wallet::spec_book_get;
use crate::wallet::Wallets;
use crate::wallet::WalletView;

verus! {

/// The amount that a coinbase transaction mints.
pub const SUBSIDY: u64 = 100;

/// The number of characters of an id that `set_id` sets.
pub const ID_LEN: usize = 64;

/// The records of a sequence of inputs.
pub open spec fn spec_input_records(inputs: Seq<InputView>) -> Seq<InputRecord> {
    Seq::new(inputs.len(), |i: int| inputs[i].record())
}

/// The records of a sequence of outputs.
pub open spec fn spec_output_records(outputs: Seq<OutputView>) -> Seq<OutputRecord> {
    Seq::new(outputs.len(), |i: int| outputs[i].record())
}

/// The inputs that a sequence of records stands for.
pub open spec fn spec_inputs_of(records: Seq<InputRecord>) -> Seq<InputView> {
    Seq::new(records.len(), |i: int| InputView::of_record(records[i]))
}

/// The outputs that a sequence of records stands for.
pub open spec fn spec_outputs_of(records: Seq<OutputRecord>) -> Seq<OutputView> {
    Seq::new(records.len(), |i: int| OutputView::of_record(records[i]))
}

/// The inputs with every signature and public key blanked, but for the
/// input at `index`, whose public key is `key`.
pub open spec fn spec_blank_inputs(inputs: Seq<InputView>, index: int, key: Seq<u8>) -> Seq<
    InputView,
> {
    Seq::new(
        inputs.len(),
        |i: int|
            InputView {
                txid: inputs[i].txid,
                vout: inputs[i].vout,
                signature: Seq::<u8>::empty(),
                pub_key: if i == index {
                    key
                } else {
                    Seq::<u8>::empty()
                },
            },
    )
}

/// The memo of a coinbase transaction: `data`, or a note of the receiver
/// where `data` is empty.
pub open spec fn spec_memo(to: Seq<char>, data: Seq<char>) -> Seq<char> {
    if data.len() == 0 {
        "Reward to '"@ + to + "'"@
    } else {
        data
    }
}

/// The inputs of a transfer: one for each selected output, unsigned, with
/// the public key of the sender.
pub open spec fn spec_spend_inputs(selected: Seq<OutPointView>, pub_key: Seq<u8>) -> Seq<InputView> {
    Seq::new(
        selected.len(),
        |i: int|
            InputView {
                txid: selected[i].txid,
                vout: selected[i].vout,
                signature: Seq::<u8>::empty(),
                pub_key: pub_key,
            },
    )
}

/// The outputs of a transfer: the amount to the receiver and, only where
/// the selected outputs hold more than the amount, the rest back to the
/// sender.
pub open spec fn spec_spend_outputs(
    from: Seq<char>,
    to: Seq<char>,
    amount: u64,
    accumulated: int,
) -> Seq<OutputView> {
    if accumulated > amount {
        seq![
            OutputView { value: amount, pub_key_hash: spec_locking_key(to) },
            OutputView { value: (accumulated - amount) as u64, pub_key_hash: spec_locking_key(from) },
        ]
    } else {
        seq![OutputView { value: amount, pub_key_hash: spec_locking_key(to) }]
    }
}

/// The transfer of `amount` from `from` to `to` over a chain, with the
/// wallets taken from an address book, or why there is none: both addresses
/// must be in the book, the chain must walk, and the unspent outputs of
/// `from` must cover the amount.
pub open spec fn spec_new_utxo(
    from: Seq<char>,
    to: Seq<char>,
    amount: u64,
    chain: ChainView,
    book: Seq<(Seq<char>, WalletView)>,
) -> Result<TransactionView, LedgerError> {
    if spec_book_get(book, from) is None || spec_book_get(book, to) is None {
        Err(LedgerError::UnknownAddress)
    } else {
        match chain.transactions() {
            None => Err(LedgerError::StorageCorruption),
            Some(txs) => {
                let selected = spec_selected(spec_unspent_outputs(txs, from), amount as int);
                let accumulated = spec_point_total(selected);
                let tx = TransactionView {
                    id: Seq::<char>::empty(),
                    vin: spec_spend_inputs(selected, spec_book_get(book, from).unwrap().public_key),
                    vout: spec_spend_outputs(from, to, amount, accumulated),
                };
                if accumulated < amount {
                    Err(LedgerError::InsufficientFunds)
                } else if tx.digest() is None {
                    Err(LedgerError::EncodingFailure)
                } else {
                    Ok(tx.with_id())
                }
            },
        }
    }
}

/// The ids of a sequence of transactions.
pub open spec fn spec_ids(txs: Seq<TransactionView>) -> Seq<Seq<char>> {
    Seq::new(txs.len(), |i: int| txs[i].id)
}

/// The output that `input` refers to: the output at its index of the first
/// transaction of `prev` with its id. `None` where `prev` holds no such
/// transaction, or that transaction no such output.
pub open spec fn spec_referenced_output(prev: Seq<TransactionView>, input: InputView) -> Option<
    OutputView,
> {
    match spec_index_of(spec_ids(prev), input.txid) {
        Some(i) => if 0 <= input.vout < prev[i].vout.len() {
            Some(prev[i].vout[input.vout as int])
        } else {
            None
        },
        None => None,
    }
}

/// The sum of the amounts of a sequence of outputs.
pub open spec fn spec_total(outputs: Seq<OutputView>) -> int
    decreases outputs.len(),
{
    if outputs.len() == 0 {
        0
    } else {
        spec_total(outputs.drop_last()) + outputs.last().value
    }
}

/// What a transaction holds.
pub struct TransactionView {
    pub id: Seq<char>,
    pub vin: Seq<InputView>,
    pub vout: Seq<OutputView>,
}

impl TransactionView {
    /// The transaction as a record of the canonical encoding.
    pub open spec fn record(self) -> TransactionRecord {
        (self.id, spec_input_records(self.vin), spec_output_records(self.vout))
    }

    /// The transaction that a record stands for.
    pub open spec fn of_record(record: TransactionRecord) -> TransactionView {
        TransactionView {
            id: record.0,
            vin: spec_inputs_of(record.1),
            vout: spec_outputs_of(record.2),
        }
    }

    /// Whether the transaction mints its outputs: its one input is the
    /// marker that refers to nothing.
    pub open spec fn is_coinbase(self) -> bool {
        self.vin.len() == 1 && self.vin[0].is_sentinel()
    }

    /// The content hash: the SHA-256 digest of the canonical encoding of the
    /// inputs and outputs, the id left blank. `None` where the encoder
    /// rejects them.
    pub open spec fn digest(self) -> Option<Seq<u8>> {
        match spec_encode_transaction(
            (Seq::<char>::empty(), spec_input_records(self.vin), spec_output_records(self.vout)),
        ) {
            Some(bytes) => Some(spec_sha256(bytes)),
            None => None,
        }
    }

    /// The copy that is hashed to sign or verify the input at `index`: all
    /// signatures and public keys blanked, the public key of that input set
    /// to `key`, the locking key of the output that it spends.
    pub open spec fn trimmed(self, index: int, key: Seq<u8>) -> TransactionView {
        TransactionView { id: self.id, vin: spec_blank_inputs(self.vin, index, key), vout: self.vout }
    }

    /// The message that the signature of the input at `index` covers.
    pub open spec fn signing_message(self, index: int, key: Seq<u8>) -> Option<Seq<u8>> {
        self.trimmed(index, key).digest()
    }

    /// The coinbase transaction that pays the subsidy to `to`, before its id
    /// is set.
    pub open spec fn coinbase(to: Seq<char>, data: Seq<char>) -> TransactionView {
        TransactionView {
            id: Seq::<char>::empty(),
            vin: seq![
                InputView {
                    txid: Seq::<char>::empty(),
                    vout: COINBASE_VOUT,
                    signature: Seq::<u8>::empty(),
                    pub_key: encode_utf8(spec_memo(to, data)),
                },
            ],
            vout: seq![OutputView { value: SUBSIDY, pub_key_hash: spec_locking_key(to) }],
        }
    }

    /// Whether `prev` holds the output that each input refers to.
    pub open spec fn all_referenced(self, prev: Seq<TransactionView>) -> bool {
        forall|i: int|
            0 <= i < self.vin.len() ==> spec_referenced_output(prev, #[trigger] self.vin[i])
                is Some
    }

    /// The outputs that the inputs refer to, in the order of the inputs.
    pub open spec fn referenced_outputs(self, prev: Seq<TransactionView>) -> Seq<OutputView> {
        Seq::new(self.vin.len(), |i: int| spec_referenced_output(prev, self.vin[i]).unwrap())
    }

    /// The message that the signature of the input at `index` covers, the
    /// output that the input spends taken from `prev`.
    pub open spec fn message_at(self, prev: Seq<TransactionView>, index: int) -> Option<Seq<u8>> {
        self.signing_message(index, spec_referenced_output(prev, self.vin[index]).unwrap().pub_key_hash)
    }

    /// The signature of the input at `index` under the private key `key`, or
    /// why there is none.
    pub open spec fn signature_at(self, key: Seq<u8>, prev: Seq<TransactionView>, index: int) -> Result<
        Seq<u8>,
        LedgerError,
    > {
        match self.message_at(prev, index) {
            None => Err(LedgerError::EncodingFailure),
            Some(message) => match spec_schnorr_sign(key, message) {
                None => Err(LedgerError::InvalidKey),
                Some(signature) => Ok(signature),
            },
        }
    }

    /// The first input that cannot be signed; the number of inputs where
    /// all can.
    pub open spec fn first_unsigned(self, key: Seq<u8>, prev: Seq<TransactionView>) -> int {
        spec_first_failing(|i: int| self.signature_at(key, prev, i) is Ok, 0, self.vin.len() as int)
    }

    /// How signing with the private key `key` ends.
    pub open spec fn sign_result(self, key: Seq<u8>, prev: Seq<TransactionView>) -> Result<
        (),
        LedgerError,
    > {
        if self.is_coinbase() {
            Ok(())
        } else if !self.all_referenced(prev) {
            Err(LedgerError::MissingReferencedTransaction)
        } else if self.first_unsigned(key, prev) >= self.vin.len() {
            Ok(())
        } else {
            Err(self.signature_at(key, prev, self.first_unsigned(key, prev))->Err_0)
        }
    }

    /// The transaction with each input signed under the private key `key`;
    /// a coinbase transaction as it is.
    pub open spec fn signed(self, key: Seq<u8>, prev: Seq<TransactionView>) -> TransactionView {
        if self.is_coinbase() {
            self
        } else {
            TransactionView {
                id: self.id,
                vin: Seq::new(
                    self.vin.len(),
                    |i: int|
                        InputView {
                            txid: self.vin[i].txid,
                            vout: self.vin[i].vout,
                            signature: self.signature_at(key, prev, i)->Ok_0,
                            pub_key: self.vin[i].pub_key,
                        },
                ),
                vout: self.vout,
            }
        }
    }

    /// Whether the signature of the input at `index` is accepted under the
    /// public key of that input, or why that cannot be told.
    pub open spec fn input_verifies(self, prev: Seq<TransactionView>, index: int) -> Result<
        bool,
        LedgerError,
    > {
        match self.message_at(prev, index) {
            None => Err(LedgerError::EncodingFailure),
            Some(message) => Ok(
                spec_schnorr_verify(self.vin[index].pub_key, message, self.vin[index].signature),
            ),
        }
    }

    /// The first input whose signature is not accepted; the number of
    /// inputs where all are.
    pub open spec fn first_unverified(self, prev: Seq<TransactionView>) -> int {
        spec_first_failing(
            |i: int| self.input_verifies(prev, i) == Ok::<bool, LedgerError>(true),
            0,
            self.vin.len() as int,
        )
    }

    /// Whether the outputs spend no more than the referenced outputs hold.
    pub open spec fn funded(self, prev: Seq<TransactionView>) -> bool {
        spec_total(self.vout) <= spec_total(self.referenced_outputs(prev))
    }

    /// How verification ends: a coinbase transaction is valid; another is
    /// valid where every signature is accepted and the outputs are funded.
    pub open spec fn verify_result(self, prev: Seq<TransactionView>) -> Result<bool, LedgerError> {
        if self.is_coinbase() {
            Ok(true)
        } else if !self.all_referenced(prev) {
            Err(LedgerError::MissingReferencedTransaction)
        } else if self.first_unverified(prev) < self.vin.len() {
            self.input_verifies(prev, self.first_unverified(prev))
        } else {
            Ok(self.funded(prev))
        }
    }

    /// Whether every input carries the public key `key`.
    pub open spec fn all_keys_are(self, key: Seq<u8>) -> bool {
        forall|i: int| 0 <= i < self.vin.len() ==> (#[trigger] self.vin[i]).pub_key == key
    }

    /// The transaction with its id set to the text of its content hash.
    pub open spec fn with_id(self) -> TransactionView {
        TransactionView { id: spec_hex(self.digest().unwrap()), vin: self.vin, vout: self.vout }
    }
}

/// A transfer of value: it spends the outputs that its inputs refer to and
/// makes new ones.
#[derive(Debug)]
pub struct Transaction {
    id: String,
    vin: Vec<TXInput>,
    vout: Vec<TXOutput>,
}

impl View for Transaction {
    type V = TransactionView;

    closed spec fn view(&self) -> TransactionView {
        TransactionView { id: self.id@, vin: self.vin.deep_view(), vout: self.vout.deep_view() }
    }
}

impl DeepView for Transaction {
    type V = TransactionView;

    open spec fn deep_view(&self) -> TransactionView {
        self@
    }
}

/// Copies a list of inputs.
pub fn clone_inputs(inputs: &Vec<TXInput>) -> (copy: Vec<TXInput>)
    ensures
        copy.deep_view() == inputs.deep_view(),
{
    let mut copy: Vec<TXInput> = Vec::new();
    let mut i: usize = 0;
    while i < inputs.len()
        invariant
            i <= inputs@.len(),
            copy@.len() == i,
            forall|k: int| 0 <= k < i ==> (#[trigger] copy@[k])@ == inputs@[k]@,
        decreases inputs.len() - i,
    {
        copy.push(inputs[i].clone());
        i += 1;
    }
    assert(copy.deep_view() =~= inputs.deep_view());
    copy
}

/// Copies a list of outputs.
pub fn clone_outputs(outputs: &Vec<TXOutput>) -> (copy: Vec<TXOutput>)
    ensures
        copy.deep_view() == outputs.deep_view(),
{
    let mut copy: Vec<TXOutput> = Vec::new();
    let mut i: usize = 0;
    while i < outputs.len()
        invariant
            i <= outputs@.len(),
            copy@.len() == i,
            forall|k: int| 0 <= k < i ==> (#[trigger] copy@[k])@ == outputs@[k]@,
        decreases outputs.len() - i,
    {
        copy.push(outputs[i].clone());
        i += 1;
    }
    assert(copy.deep_view() =~= outputs.deep_view());
    copy
}

impl Clone for Transaction {
    fn clone(&self) -> (copy: Transaction)
        ensures
            copy@ == self@,
    {
        Transaction {
            id: self.id.clone(),
            vin: clone_inputs(&self.vin),
            vout: clone_outputs(&self.vout),
        }
    }
}

fn input_fields(inputs: &Vec<TXInput>) -> (fields: Vec<InputFields>)
    ensures
        fields.deep_view() == spec_input_records(inputs.deep_view()),
{
    let mut fields: Vec<InputFields> = Vec::new();
    let mut i: usize = 0;
    while i < inputs.len()
        invariant
            i <= inputs@.len(),
            fields@.len() == i,
            forall|k: int| 0 <= k < i ==> (#[trigger] fields@[k]).deep_view() == inputs@[k]@.record(),
        decreases inputs.len() - i,
    {
        fields.push(inputs[i].fields());
        i += 1;
    }
    assert(fields.deep_view() =~= spec_input_records(inputs.deep_view()));
    fields
}

fn output_fields(outputs: &Vec<TXOutput>) -> (fields: Vec<OutputFields>)
    ensures
        fields.deep_view() == spec_output_records(outputs.deep_view()),
{
    let mut fields: Vec<OutputFields> = Vec::new();
    let mut i: usize = 0;
    while i < outputs.len()
        invariant
            i <= outputs@.len(),
            fields@.len() == i,
            forall|k: int|
                0 <= k < i ==> (#[trigger] fields@[k]).deep_view() == outputs@[k]@.record(),
        decreases outputs.len() - i,
    {
        fields.push(outputs[i].fields());
        i += 1;
    }
    assert(fields.deep_view() =~= spec_output_records(outputs.deep_view()));
    fields
}

fn inputs_from_fields(fields: &Vec<InputFields>) -> (inputs: Vec<TXInput>)
    ensures
        inputs.deep_view() == spec_inputs_of(fields.deep_view()),
{
    let mut inputs: Vec<TXInput> = Vec::new();
    let mut i: usize = 0;
    while i < fields.len()
        invariant
            i <= fields@.len(),
            inputs@.len() == i,
            forall|k: int|
                0 <= k < i ==> (#[trigger] inputs@[k])@ == InputView::of_record(
                    fields@[k].deep_view(),
                ),
        decreases fields.len() - i,
    {
        inputs.push(TXInput::from_fields(&fields[i]));
        i += 1;
    }
    assert(inputs.deep_view() =~= spec_inputs_of(fields.deep_view()));
    inputs
}

fn outputs_from_fields(fields: &Vec<OutputFields>) -> (outputs: Vec<TXOutput>)
    ensures
        outputs.deep_view() == spec_outputs_of(fields.deep_view()),
{
    let mut outputs: Vec<TXOutput> = Vec::new();
    let mut i: usize = 0;
    while i < fields.len()
        invariant
            i <= fields@.len(),
            outputs@.len() == i,
            forall|k: int|
                0 <= k < i ==> (#[trigger] outputs@[k])@ == OutputView::of_record(
                    fields@[k].deep_view(),
                ),
        decreases fields.len() - i,
    {
        outputs.push(TXOutput::from_fields(&fields[i]));
        i += 1;
    }
    assert(outputs.deep_view() =~= spec_outputs_of(fields.deep_view()));
    outputs
}

fn find_output(prev_txs: &Vec<Transaction>, input: &TXInput) -> (found: Option<TXOutput>)
    ensures
        match found {
            Some(output) => spec_referenced_output(prev_txs.deep_view(), input@) == Some(output@),
            None => spec_referenced_output(prev_txs.deep_view(), input@) is None,
        },
{
    let txid = input.get_txid();
    let ghost ids = spec_ids(prev_txs.deep_view());
    let mut i: usize = 0;
    while i < prev_txs.len()
        invariant
            i <= prev_txs@.len(),
            ids == spec_ids(prev_txs.deep_view()),
            ids.len() == prev_txs@.len(),
            txid@ == input@.txid,
            forall|j: int| 0 <= j < i ==> ids[j] != txid@,
        decreases prev_txs.len() - i,
    {
        if prev_txs[i].id == txid {
            proof {
                lemma_index_is(ids, txid@, 0, i as int);
            }
            let vout = input.get_vout();
            let outputs = &prev_txs[i].vout;
            if vout < 0 || vout as u64 >= outputs.len() as u64 {
                return None;
            }
            let output = outputs[vout as usize].clone();
            assert(prev_txs.deep_view()[i as int].vout == outputs.deep_view());
            return Some(output);
        }
        i += 1;
    }
    proof {
        lemma_index_none(ids, txid@, 0);
    }
    None
}

/// Adds up the amounts of a list of outputs.
pub fn total_value(outputs: &Vec<TXOutput>) -> (total: u128)
    ensures
        total == spec_total(outputs.deep_view()),
{
    let ghost all = outputs.deep_view();
    let mut total: u128 = 0;
    let mut i: usize = 0;
    while i < outputs.len()
        invariant
            i <= outputs@.len(),
            all == outputs.deep_view(),
            total == spec_total(all.subrange(0, i as int)),
            total <= i * u64::MAX,
        decreases outputs.len() - i,
    {
        proof {
            let next = all.subrange(0, i + 1);
            assert(next.drop_last() =~= all.subrange(0, i as int));
            assert(next.last() == outputs@[i as int]@);
        }
        total = total + outputs[i].value as u128;
        i += 1;
    }
    assert(all.subrange(0, all.len() as int) =~= all);
    total
}

/// A transaction whose inputs were all signed under one private key, and
/// carry the public key of it, verifies where its outputs are funded.
proof fn lemma_signed_verifies(
    before: TransactionView,
    after: TransactionView,
    key: Seq<u8>,
    prev: Seq<TransactionView>,
)
    requires
        !before.is_coinbase(),
        before.all_referenced(prev),
        before.first_unsigned(key, prev) >= before.vin.len(),
        after == before.signed(key, prev),
        before.all_keys_are(spec_public_key(key).unwrap()),
        before.funded(prev),
        forall|k: int|
            0 <= k < before.vin.len() ==> spec_schnorr_verify(
                spec_public_key(key).unwrap(),
                before.message_at(prev, k).unwrap(),
                #[trigger] after.vin[k].signature,
            ),
        forall|k: int|
            0 <= k < before.vin.len() ==> #[trigger] before.signature_at(key, prev, k) is Ok,
    ensures
        after.verify_result(prev) == Ok::<bool, LedgerError>(true),
{
    let ok = |i: int| after.input_verifies(prev, i) == Ok::<bool, LedgerError>(true);
    assert(after.referenced_outputs(prev) =~= before.referenced_outputs(prev));
    assert forall|k: int| 0 <= k < after.vin.len() implies #[trigger] ok(k) by {
        assert(before.signature_at(key, prev, k) is Ok);
        assert(spec_blank_inputs(after.vin, k, spec_referenced_output(prev, after.vin[k]).unwrap().pub_key_hash)
            =~= spec_blank_inputs(
            before.vin,
            k,
            spec_referenced_output(prev, before.vin[k]).unwrap().pub_key_hash,
        ));
        assert(after.message_at(prev, k) == before.message_at(prev, k));
        assert(before.vin[k].pub_key == spec_public_key(key).unwrap());
    }
    lemma_first_failing_none(ok, 0, after.vin.len() as int);
    assert(after.all_referenced(prev)) by {
        assert forall|i: int| 0 <= i < after.vin.len() implies spec_referenced_output(
            prev,
            #[trigger] after.vin[i],
        ) is Some by {
            assert(spec_referenced_output(prev, before.vin[i]) is Some);
        }
    }
}

/// A rejected signature makes a transaction invalid, and is no error: where
/// every reference is found and every signing message encodes, a
/// transaction one of whose signatures is not accepted under the public key
/// of its input verifies as `false`.
pub proof fn lemma_rejected_signature_fails(
    tx: TransactionView,
    prev: Seq<TransactionView>,
    at: int,
)
    requires
        !tx.is_coinbase(),
        tx.all_referenced(prev),
        forall|i: int| 0 <= i < tx.vin.len() ==> #[trigger] tx.message_at(prev, i) is Some,
        0 <= at < tx.vin.len(),
        !spec_schnorr_verify(
            tx.vin[at].pub_key,
            tx.message_at(prev, at).unwrap(),
            tx.vin[at].signature,
        ),
    ensures
        tx.verify_result(prev) == Ok::<bool, LedgerError>(false),
{
    let ok = |i: int| tx.input_verifies(prev, i) == Ok::<bool, LedgerError>(true);
    lemma_first_failing(ok, 0, tx.vin.len() as int);
    let bad = tx.first_unverified(prev);
    if bad >= tx.vin.len() {
        assert(ok(at));
    }
    assert(!ok(bad));
    assert(tx.message_at(prev, bad) is Some);
}

/// Funds decide: where both addresses are in the book and the chain walks,
/// a transfer fails for want of funds exactly where the amount is above the
/// balance of the sender.
pub proof fn lemma_funds_decide(
    from: Seq<char>,
    to: Seq<char>,
    amount: u64,
    chain: ChainView,
    book: Seq<(Seq<char>, WalletView)>,
)
    requires
        spec_book_get(book, from) is Some,
        spec_book_get(book, to) is Some,
        chain.transactions() is Some,
    ensures
        spec_new_utxo(from, to, amount, chain, book) == Err::<TransactionView, LedgerError>(
            LedgerError::InsufficientFunds,
        ) <==> spec_balance(chain.transactions().unwrap(), from) < amount,
{
    lemma_selection_suffices(
        spec_unspent_outputs(chain.transactions().unwrap(), from),
        amount as int,
    );
}

/// Reading the record of a transaction gives the transaction back.
pub proof fn lemma_record_round_trip(tx: TransactionView)
    ensures
        TransactionView::of_record(tx.record()) == tx,
{
    assert(spec_inputs_of(spec_input_records(tx.vin)) =~= tx.vin);
    assert(spec_outputs_of(spec_output_records(tx.vout)) =~= tx.vout);
}

impl Transaction {
    /// Makes the transaction that transfers `amount` from `from` to `to`:
    /// one unsigned input for each unspent output of `from` that is
    /// selected to pay, with the public key of the wallet of `from`; one
    /// output of `amount` to `to`; and, only where the selected outputs
    /// hold more than `amount`, one output of the rest back to `from`.
    /// Fails with `UnknownAddress` where `wallets` lacks one of the two
    /// addresses, with `StorageCorruption` where the chain does not walk,
    /// with `InsufficientFunds` where the unspent outputs of `from` do not
    /// cover `amount`, and with `EncodingFailure` where the encoder rejects
    /// the transaction.
    pub fn new_utxo(from: &str, to: &str, amount: u64, bc: &Blockchain, wallets: &Wallets) -> (made: Result<
        Transaction,
        LedgerError,
    >)
        ensures
            match made {
                Ok(tx) => {
                    &&& spec_new_utxo(from@, to@, amount, bc@, wallets@) == Ok::<
                        TransactionView,
                        LedgerError,
                    >(tx@)
                    &&& tx@.id.len() == ID_LEN
                },
                Err(e) => spec_new_utxo(from@, to@, amount, bc@, wallets@) == Err::<
                    TransactionView,
                    LedgerError,
                >(e),
            },
    {
        let wallet = match wallets.get_wallet(from) {
            Some(wallet) => wallet,
            None => {
                return Err(LedgerError::UnknownAddress);
            },
        };
        if wallets.get_wallet(to).is_none() {
            return Err(LedgerError::UnknownAddress);
        }
        let (accumulated, selected) = match bc.find_spendable_outputs(from, amount) {
            Ok(found) => found,
            Err(e) => {
                return Err(e);
            },
        };
        if accumulated < amount as u128 {
            return Err(LedgerError::InsufficientFunds);
        }
        let ghost points = selected.deep_view();
        let mut vin: Vec<TXInput> = Vec::new();
        let mut i: usize = 0;
        while i < selected.len()
            invariant
                i <= selected@.len(),
                points == selected.deep_view(),
                vin@.len() == i,
                forall|k: int|
                    0 <= k < i ==> (#[trigger] vin@[k])@ == spec_spend_inputs(
                        points,
                        wallet@.public_key,
                    )[k],
            decreases selected.len() - i,
        {
            assert(points[i as int] == selected@[i as int]@);
            vin.push(
                TXInput::new(selected[i].txid.clone(), selected[i].vout, Vec::new(), wallet.get_pub_key()),
            );
            i += 1;
        }
        let mut vout: Vec<TXOutput> = Vec::new();
        vout.push(TXOutput::new(amount, String::from_str(to)));
        if accumulated > amount as u128 {
            vout.push(TXOutput::new((accumulated - amount as u128) as u64, String::from_str(from)));
        }
        let mut tx = Transaction { id: String::new(), vin, vout };
        proof {
            assert(tx@.vin =~= spec_spend_inputs(points, wallet@.public_key));
            assert(tx@.vout =~= spec_spend_outputs(from@, to@, amount, accumulated as int));
        }
        match tx.set_id() {
            Ok(()) => Ok(tx),
            Err(e) => Err(e),
        }
    }

    /// Makes the transaction that mints the subsidy for `to`. Its one input
    /// refers to nothing and carries the memo `data`, or a note of the
    /// receiver where `data` is empty. Fails where the encoder rejects it.
    pub fn new_coinbase(to: String, data: String) -> (made: Result<Transaction, LedgerError>)
        ensures
            match made {
                Ok(tx) => {
                    &&& TransactionView::coinbase(to@, data@).digest() is Some
                    &&& tx@ == TransactionView::coinbase(to@, data@).with_id()
                    &&& tx@.id.len() == ID_LEN
                },
                Err(e) => e == LedgerError::EncodingFailure && TransactionView::coinbase(
                    to@,
                    data@,
                ).digest() is None,
            },
    {
        let mut memo = data;
        if memo.as_str().unicode_len() == 0 {
            memo = String::from_str("Reward to '");
            memo.append(to.as_str());
            memo.append("'");
        }
        let marker = TXInput::new(
            String::new(),
            COINBASE_VOUT,
            Vec::new(),
            memo.as_str().as_bytes_vec(),
        );
        let mut vin: Vec<TXInput> = Vec::new();
        vin.push(marker);
        let mut vout: Vec<TXOutput> = Vec::new();
        vout.push(TXOutput::new(SUBSIDY, to));
        let mut tx = Transaction { id: String::new(), vin, vout };
        assert(tx@ =~= TransactionView::coinbase(to@, data@)) by {
            assert(tx@.vin =~= TransactionView::coinbase(to@, data@).vin);
            assert(tx@.vout =~= TransactionView::coinbase(to@, data@).vout);
        }
        match tx.set_id() {
            Ok(()) => Ok(tx),
            Err(e) => Err(e),
        }
    }

    /// Makes a transaction from its parts, the id as given.
    pub fn from_parts(id: String, vin: Vec<TXInput>, vout: Vec<TXOutput>) -> (tx: Transaction)
        ensures
            tx@ == (TransactionView { id: id@, vin: vin.deep_view(), vout: vout.deep_view() }),
    {
        Transaction { id, vin, vout }
    }

    /// Returns the id.
    pub fn get_id(&self) -> (id: String)
        ensures
            id@ == self@.id,
    {
        self.id.clone()
    }

    /// Returns the inputs.
    pub fn ins(&self) -> (inputs: &Vec<TXInput>)
        ensures
            inputs.deep_view() == self@.vin,
    {
        &self.vin
    }

    /// Returns the outputs.
    pub fn outs(&self) -> (outputs: &Vec<TXOutput>)
        ensures
            outputs.deep_view() == self@.vout,
    {
        &self.vout
    }

    /// Returns a copy of the inputs.
    pub fn get_ins(&self) -> (inputs: Vec<TXInput>)
        ensures
            inputs.deep_view() == self@.vin,
    {
        clone_inputs(&self.vin)
    }

    /// Returns a copy of the outputs.
    pub fn get_outs(&self) -> (outputs: Vec<TXOutput>)
        ensures
            outputs.deep_view() == self@.vout,
    {
        clone_outputs(&self.vout)
    }

    /// Tells whether the transaction mints its outputs.
    pub fn is_coinbase(&self) -> (yes: bool)
        ensures
            yes == self@.is_coinbase(),
    {
        self.vin.len() == 1 && self.vin[0].get_txid().as_str().unicode_len() == 0
            && self.vin[0].get_vout() == COINBASE_VOUT
    }

    /// Sets the id to the hexadecimal text of the content hash. Fails, and
    /// leaves the transaction as it is, where the encoder rejects it.
    pub fn set_id(&mut self) -> (done: Result<(), LedgerError>)
        ensures
            match done {
                Ok(()) => {
                    &&& old(self)@.digest() is Some
                    &&& final(self)@ == old(self)@.with_id()
                    &&& final(self)@.id.len() == ID_LEN
                },
                Err(e) => {
                    &&& e == LedgerError::EncodingFailure
                    &&& old(self)@.digest() is None
                    &&& final(self)@ == old(self)@
                },
            },
    {
        match self.hash() {
            Some(digest) => {
                self.id = to_hex(digest.as_slice());
                Ok(())
            },
            None => Err(LedgerError::EncodingFailure),
        }
    }

    /// Computes the content hash: 32 bytes. `None` where the encoder rejects
    /// the transaction.
    pub fn hash(&self) -> (digest: Option<Vec<u8>>)
        ensures
            match digest {
                Some(d) => self@.digest() == Some(d@) && d@.len() == SHA256_LEN,
                None => self@.digest() is None,
            },
    {
        let fields: TransactionFields = (
            String::new(),
            input_fields(&self.vin),
            output_fields(&self.vout),
        );
        match encode_transaction(&fields) {
            Some(bytes) => Some(sha256(bytes.as_slice())),
            None => None,
        }
    }

    /// Returns a copy with every signature and public key blanked.
    pub fn trim_copy(&self) -> (copy: Transaction)
        ensures
            copy@ == self@.trimmed(-1, Seq::<u8>::empty()),
    {
        let mut ins: Vec<TXInput> = Vec::new();
        let mut i: usize = 0;
        while i < self.vin.len()
            invariant
                i <= self.vin@.len(),
                ins@.len() == i,
                forall|k: int|
                    0 <= k < i ==> (#[trigger] ins@[k])@ == spec_blank_inputs(
                        self@.vin,
                        -1,
                        Seq::<u8>::empty(),
                    )[k],
            decreases self.vin.len() - i,
        {
            ins.push(TXInput::new(self.vin[i].get_txid(), self.vin[i].get_vout(), Vec::new(), Vec::new()));
            i += 1;
        }
        let copy = Transaction { id: self.id.clone(), vin: ins, vout: clone_outputs(&self.vout) };
        assert(copy@.vin =~= spec_blank_inputs(self@.vin, -1, Seq::<u8>::empty()));
        copy
    }

    /// Collects the outputs that the inputs refer to. `None` exactly where
    /// `prev_txs` lacks one of them.
    pub fn referenced_outputs(&self, prev_txs: &Vec<Transaction>) -> (found: Option<Vec<TXOutput>>)
        ensures
            match found {
                Some(outputs) => {
                    &&& self@.all_referenced(prev_txs.deep_view())
                    &&& outputs.deep_view() == self@.referenced_outputs(prev_txs.deep_view())
                },
                None => !self@.all_referenced(prev_txs.deep_view()),
            },
    {
        let ghost prev = prev_txs.deep_view();
        let mut outputs: Vec<TXOutput> = Vec::new();
        let mut i: usize = 0;
        while i < self.vin.len()
            invariant
                i <= self.vin@.len(),
                prev == prev_txs.deep_view(),
                outputs@.len() == i,
                forall|k: int|
                    0 <= k < i ==> spec_referenced_output(prev, #[trigger] self@.vin[k]) == Some(
                        outputs@[k]@,
                    ),
            decreases self.vin.len() - i,
        {
            match find_output(prev_txs, &self.vin[i]) {
                Some(output) => {
                    outputs.push(output);
                },
                None => {
                    assert(spec_referenced_output(prev, self@.vin[i as int]) is None);
                    return None;
                },
            }
            i += 1;
        }
        assert(outputs.deep_view() =~= self@.referenced_outputs(prev));
        Some(outputs)
    }

    /// Computes the message that the signature of the input at `index`
    /// covers: the content hash of the copy in which all signatures and
    /// public keys are blank and the public key of that input is `key`.
    /// `None` where the encoder rejects the copy.
    pub fn signing_message(&self, index: usize, key: &[u8]) -> (message: Option<Vec<u8>>)
        ensures
            match message {
                Some(m) => self@.signing_message(index as int, key@) == Some(m@) && m@.len()
                    == SHA256_LEN,
                None => self@.signing_message(index as int, key@) is None,
            },
    {
        let ghost blank = spec_blank_inputs(self@.vin, index as int, key@);
        let mut ins: Vec<TXInput> = Vec::new();
        let mut i: usize = 0;
        while i < self.vin.len()
            invariant
                i <= self.vin@.len(),
                ins@.len() == i,
                blank == spec_blank_inputs(self@.vin, index as int, key@),
                forall|k: int| 0 <= k < i ==> (#[trigger] ins@[k])@ == blank[k],
            decreases self.vin.len() - i,
        {
            let pub_key = if i == index {
                slice_to_vec(key)
            } else {
                Vec::new()
            };
            ins.push(TXInput::new(self.vin[i].get_txid(), self.vin[i].get_vout(), Vec::new(), pub_key));
            i += 1;
        }
        let copy = Transaction { id: self.id.clone(), vin: ins, vout: clone_outputs(&self.vout) };
        assert(copy@.vin =~= blank);
        assert(copy@ == self@.trimmed(index as int, key@));
        copy.hash()
    }

    /// Signs every input with `private_key`: the signature of an input
    /// covers the content hash of the copy in which all signatures and
    /// public keys are blank and the public key of that input is the locking
    /// key of the output that it spends, taken from `prev_txs`. A coinbase
    /// transaction is left as it is. On failure the transaction is left as
    /// it is.
    ///
    /// Where every input carries the public key of `private_key` and the
    /// outputs are funded, the signed transaction verifies.
    pub fn sign(&mut self, private_key: &[u8], prev_txs: &Vec<Transaction>) -> (done: Result<
        (),
        LedgerError,
    >)
        ensures
            done == old(self)@.sign_result(private_key@, prev_txs.deep_view()),
            done is Ok ==> final(self)@ == old(self)@.signed(private_key@, prev_txs.deep_view()),
            done is Err ==> final(self)@ == old(self)@,
            done is Ok && old(self)@.all_keys_are(spec_public_key(private_key@).unwrap()) && old(
                self,
            )@.funded(prev_txs.deep_view()) ==> final(self)@.verify_result(prev_txs.deep_view())
                == Ok::<bool, LedgerError>(true),
    {
        let ghost prev = prev_txs.deep_view();
        let ghost before = self@;
        let ghost key = private_key@;
        if self.is_coinbase() {
            return Ok(());
        }
        let outputs = match self.referenced_outputs(prev_txs) {
            Some(outputs) => outputs,
            None => {
                return Err(LedgerError::MissingReferencedTransaction);
            },
        };
        let ghost ok = |i: int| before.signature_at(key, prev, i) is Ok;
        let mut signed: Vec<TXInput> = Vec::new();
        let mut i: usize = 0;
        assert(outputs.deep_view().len() == outputs@.len());
        while i < self.vin.len()
            invariant
                i <= self.vin@.len(),
                self@ == before,
                !before.is_coinbase(),
                before.all_referenced(prev),
                prev == prev_txs.deep_view(),
                key == private_key@,
                outputs.deep_view() == before.referenced_outputs(prev),
                outputs@.len() == self.vin@.len(),
                ok == (|i: int| before.signature_at(key, prev, i) is Ok),
                signed@.len() == i,
                forall|k: int| 0 <= k < i ==> #[trigger] ok(k),
                forall|k: int|
                    0 <= k < i ==> (#[trigger] signed@[k])@ == before.signed(key, prev).vin[k],
                forall|k: int|
                    0 <= k < i ==> spec_schnorr_verify(
                        spec_public_key(key).unwrap(),
                        before.message_at(prev, k).unwrap(),
                        (#[trigger] signed@[k])@.signature,
                    ),
            decreases self.vin.len() - i,
        {
            assert(outputs.deep_view()[i as int] == outputs@[i as int]@);
            let message = match self.signing_message(i, outputs[i].pub_key_hash.as_slice()) {
                Some(message) => message,
                None => {
                    proof {
                        assert(!ok(i as int));
                        lemma_first_failing_is(ok, 0, i as int, before.vin.len() as int);
                    }
                    return Err(LedgerError::EncodingFailure);
                },
            };
            let signature = match schnorr_sign(private_key, message.as_slice()) {
                Some(signature) => signature,
                None => {
                    proof {
                        assert(!ok(i as int));
                        lemma_first_failing_is(ok, 0, i as int, before.vin.len() as int);
                    }
                    return Err(LedgerError::InvalidKey);
                },
            };
            assert(ok(i as int));
            signed.push(
                TXInput::new(
                    self.vin[i].get_txid(),
                    self.vin[i].get_vout(),
                    signature,
                    self.vin[i].get_pub_key(),
                ),
            );
            i += 1;
        }
        proof {
            lemma_first_failing_none(ok, 0, before.vin.len() as int);
        }
        self.vin = signed;
        proof {
            let after = self@;
            assert(after.vin =~= before.signed(key, prev).vin);
            if before.all_keys_are(spec_public_key(key).unwrap()) && before.funded(prev) {
                assert forall|k: int| 0 <= k < before.vin.len() implies #[trigger] before.signature_at(
                    key,
                    prev,
                    k,
                ) is Ok by {
                    assert(ok(k));
                }
                lemma_signed_verifies(before, after, key, prev);
            }
        }
        Ok(())
    }

    /// Verifies the transaction against the transactions that it spends
    /// from: a coinbase transaction is valid; another is valid where the
    /// signature of every input is accepted under the public key of that
    /// input and the outputs spend no more than the referenced outputs
    /// hold.
    pub fn verify(&self, prev_txs: &Vec<Transaction>) -> (valid: Result<bool, LedgerError>)
        ensures
            valid == self@.verify_result(prev_txs.deep_view()),
            self@.is_coinbase() ==> valid == Ok::<bool, LedgerError>(true),
    {
        let ghost prev = prev_txs.deep_view();
        let ghost view = self@;
        if self.is_coinbase() {
            return Ok(true);
        }
        let outputs = match self.referenced_outputs(prev_txs) {
            Some(outputs) => outputs,
            None => {
                return Err(LedgerError::MissingReferencedTransaction);
            },
        };
        let ghost ok = |i: int| view.input_verifies(prev, i) == Ok::<bool, LedgerError>(true);
        let mut i: usize = 0;
        assert(outputs.deep_view().len() == outputs@.len());
        while i < self.vin.len()
            invariant
                i <= self.vin@.len(),
                self@ == view,
                !view.is_coinbase(),
                view.all_referenced(prev),
                prev == prev_txs.deep_view(),
                outputs.deep_view() == view.referenced_outputs(prev),
                outputs@.len() == self.vin@.len(),
                ok == (|i: int| view.input_verifies(prev, i) == Ok::<bool, LedgerError>(true)),
                forall|k: int| 0 <= k < i ==> #[trigger] ok(k),
            decreases self.vin.len() - i,
        {
            assert(outputs.deep_view()[i as int] == outputs@[i as int]@);
            assert(self.vin.deep_view()[i as int] == self.vin@[i as int]@);
            let message = match self.signing_message(i, outputs[i].pub_key_hash.as_slice()) {
                Some(message) => message,
                None => {
                    proof {
                        assert(!ok(i as int));
                        lemma_first_failing_is(ok, 0, i as int, view.vin.len() as int);
                    }
                    return Err(LedgerError::EncodingFailure);
                },
            };
            let pub_key = self.vin[i].get_pub_key();
            let signature = self.vin[i].get_signature();
            let accepted = schnorr_verify(
                pub_key.as_slice(),
                message.as_slice(),
                signature.as_slice(),
            );
            if !accepted {
                proof {
                    assert(!ok(i as int));
                    lemma_first_failing_is(ok, 0, i as int, view.vin.len() as int);
                }
                return Ok(false);
            }
            assert(ok(i as int));
            i += 1;
        }
        proof {
            lemma_first_failing_none(ok, 0, view.vin.len() as int);
        }
        let spent = total_value(&self.vout);
        let held = total_value(&outputs);
        Ok(spent <= held)
    }

    /// Writes the transaction as a record of the canonical encoding.
    pub fn fields(&self) -> (fields: TransactionFields)
        ensures
            fields.deep_view() == self@.record(),
    {
        (self.id.clone(), input_fields(&self.vin), output_fields(&self.vout))
    }

    /// Reads a transaction from a record of the canonical encoding.
    pub fn from_fields(fields: &TransactionFields) -> (tx: Transaction)
        ensures
            tx@ == TransactionView::of_record(fields.deep_view()),
    {
        Transaction {
            id: fields.0.clone(),
            vin: inputs_from_fields(&fields.1),
            vout: outputs_from_fields(&fields.2),
        }
    }
}

} // verus!
