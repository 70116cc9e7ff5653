//! The inputs and outputs of a transaction.
use vstd::prelude::*;
use vstd::slice::slice_to_vec;
use vstd::string::StrSliceExecFns;
use vstd::utf8::decode_utf8;
use vstd::utf8::encode_utf8;
use vstd::utf8::valid_utf8;
use crate::address::bytes_eq;
use crate::codec::InputFields;
use crate::codec::InputRecord;
use crate::codec::OutputFields;
use crate::codec::OutputRecord;
use crate::wallet::spec_key_address;
use crate::wallet::Wallet;

verus! {

/// The output index that marks the input of a coinbase transaction.
pub const COINBASE_VOUT: i64 = -1;

/// The locking key that an output to `address` carries: the bytes of the
/// address text.
pub open spec fn spec_locking_key(address: Seq<char>) -> Seq<u8> {
    encode_utf8(address)
}

/// What an input holds.
pub struct InputView {
    pub txid: Seq<char>,
    pub vout: i64,
    pub signature: Seq<u8>,
    pub pub_key: Seq<u8>,
}

impl InputView {
    /// Whether the input is the marker of a coinbase transaction: it refers
    /// to no transaction and to no output.
    pub open spec fn is_sentinel(self) -> bool {
        self.txid.len() == 0 && self.vout == COINBASE_VOUT
    }

    /// Whether the owner of `address` authorised the input: the address of
    /// its public key is `address`.
    pub open spec fn authorized_by(self, address: Seq<char>) -> bool {
        spec_key_address(self.pub_key) == Some(address)
    }

    /// The input as a record of the canonical encoding.
    pub open spec fn record(self) -> InputRecord {
        (self.txid, self.vout, self.signature, self.pub_key)
    }

    /// The input that a record stands for.
    pub open spec fn of_record(record: InputRecord) -> InputView {
        InputView { txid: record.0, vout: record.1, signature: record.2, pub_key: record.3 }
    }
}

/// What an output holds.
pub struct OutputView {
    pub value: u64,
    pub pub_key_hash: Seq<u8>,
}

impl OutputView {
    /// Whether the output is locked to `address`.
    pub open spec fn locked_to(self, address: Seq<char>) -> bool {
        self.pub_key_hash == spec_locking_key(address)
    }

    /// The output as a record of the canonical encoding.
    pub open spec fn record(self) -> OutputRecord {
        (self.value, self.pub_key_hash)
    }

    /// The output that a record stands for.
    pub open spec fn of_record(record: OutputRecord) -> OutputView {
        OutputView { value: record.0, pub_key_hash: record.1 }
    }
}

/// The deep view of a byte vector is its view.
pub(crate) proof fn lemma_bytes_deep_view(bytes: Vec<u8>)
    ensures
        bytes.deep_view() == bytes@,
{
    assert(bytes.deep_view() =~= bytes@);
}

/// Calls `String::from_utf8`. Trusted: the result is the text that `bytes`
/// encode in UTF-8, or `None` where they are not UTF-8.
#[verifier::external_body]
pub(crate) fn text_from_utf8(bytes: Vec<u8>) -> (text: Option<String>)
    ensures
        match text {
            Some(t) => valid_utf8(bytes@) && t@ == decode_utf8(bytes@),
            None => !valid_utf8(bytes@),
        },
{
    String::from_utf8(bytes).ok()
}

/// A reference to an output of an earlier transaction, with the signature
/// and the public key of the one who spends it.
#[derive(Debug)]
pub struct TXInput {
    txid: String,
    vout: i64,
    pub signature: Vec<u8>,
    pub pub_key: Vec<u8>,
}

impl View for TXInput {
    type V = InputView;

    closed spec fn view(&self) -> InputView {
        InputView {
            txid: self.txid@,
            vout: self.vout,
            signature: self.signature@,
            pub_key: self.pub_key@,
        }
    }
}

impl DeepView for TXInput {
    type V = InputView;

    open spec fn deep_view(&self) -> InputView {
        self@
    }
}

impl Clone for TXInput {
    fn clone(&self) -> (copy: TXInput)
        ensures
            copy@ == self@,
    {
        TXInput {
            txid: self.txid.clone(),
            vout: self.vout,
            signature: slice_to_vec(self.signature.as_slice()),
            pub_key: slice_to_vec(self.pub_key.as_slice()),
        }
    }
}

impl TXInput {
    /// Makes an input from its four parts.
    pub fn new(txid: String, vout: i64, signature: Vec<u8>, pub_key: Vec<u8>) -> (input: TXInput)
        ensures
            input@ == (InputView {
                txid: txid@,
                vout: vout,
                signature: signature@,
                pub_key: pub_key@,
            }),
    {
        TXInput { txid, vout, signature, pub_key }
    }

    /// Tells whether the owner of the address `unlocking_data` authorised
    /// this input.
    pub fn can_be_unlocked_with(&self, unlocking_data: String) -> (yes: bool)
        ensures
            yes == self@.authorized_by(unlocking_data@),
    {
        match Wallet::get_address_helper(self.pub_key.as_slice()) {
            Some(address) => address == unlocking_data,
            None => false,
        }
    }

    /// Returns the id of the transaction referred to.
    pub fn get_txid(&self) -> (txid: String)
        ensures
            txid@ == self@.txid,
    {
        self.txid.clone()
    }

    /// Returns the index of the output referred to.
    pub fn get_vout(&self) -> (vout: i64)
        ensures
            vout == self@.vout,
    {
        self.vout
    }

    /// Returns a copy of the signature.
    pub fn get_signature(&self) -> (signature: Vec<u8>)
        ensures
            signature@ == self@.signature,
    {
        slice_to_vec(self.signature.as_slice())
    }

    /// Returns a copy of the public key.
    pub fn get_pub_key(&self) -> (pub_key: Vec<u8>)
        ensures
            pub_key@ == self@.pub_key,
    {
        slice_to_vec(self.pub_key.as_slice())
    }

    /// Replaces the signature.
    pub fn set_signature(&mut self, signature: Vec<u8>)
        ensures
            final(self)@ == (InputView { signature: signature@, ..old(self)@ }),
    {
        self.signature = signature;
    }

    /// Replaces the public key.
    pub fn set_pub_key(&mut self, pub_key: Vec<u8>)
        ensures
            final(self)@ == (InputView { pub_key: pub_key@, ..old(self)@ }),
    {
        self.pub_key = pub_key;
    }

    /// Writes the input as a record of the canonical encoding.
    pub fn fields(&self) -> (fields: InputFields)
        ensures
            fields.deep_view() == self@.record(),
    {
        let fields = (
            self.txid.clone(),
            self.vout,
            slice_to_vec(self.signature.as_slice()),
            slice_to_vec(self.pub_key.as_slice()),
        );
        proof {
            lemma_bytes_deep_view(fields.2);
            lemma_bytes_deep_view(fields.3);
        }
        fields
    }

    /// Reads an input from a record of the canonical encoding.
    pub fn from_fields(fields: &InputFields) -> (input: TXInput)
        ensures
            input@ == InputView::of_record(fields.deep_view()),
    {
        proof {
            lemma_bytes_deep_view(fields.2);
            lemma_bytes_deep_view(fields.3);
        }
        TXInput {
            txid: fields.0.clone(),
            vout: fields.1,
            signature: slice_to_vec(fields.2.as_slice()),
            pub_key: slice_to_vec(fields.3.as_slice()),
        }
    }
}

/// An amount and the locking key of the one who may spend it.
#[derive(Debug)]
pub struct TXOutput {
    pub value: u64,
    pub pub_key_hash: Vec<u8>,
}

impl View for TXOutput {
    type V = OutputView;

    open spec fn view(&self) -> OutputView {
        OutputView { value: self.value, pub_key_hash: self.pub_key_hash@ }
    }
}

impl DeepView for TXOutput {
    type V = OutputView;

    open spec fn deep_view(&self) -> OutputView {
        self@
    }
}

impl Clone for TXOutput {
    fn clone(&self) -> (copy: TXOutput)
        ensures
            copy@ == self@,
    {
        TXOutput { value: self.value, pub_key_hash: slice_to_vec(self.pub_key_hash.as_slice()) }
    }
}

impl TXOutput {
    /// Makes an output of `value` locked to the address `pub_key_hash`.
    pub fn new(value: u64, pub_key_hash: String) -> (output: TXOutput)
        ensures
            output@ == (OutputView { value: value, pub_key_hash: spec_locking_key(pub_key_hash@) }),
    {
        TXOutput { value, pub_key_hash: pub_key_hash.as_str().as_bytes_vec() }
    }

    /// Tells whether the output is locked to the address `unlocking_data`.
    pub fn can_be_unlocked_with(&self, unlocking_data: String) -> (yes: bool)
        ensures
            yes == self@.locked_to(unlocking_data@),
    {
        bytes_eq(self.pub_key_hash.as_slice(), unlocking_data.as_str().as_bytes())
    }

    /// Returns the amount.
    pub fn get_value(&self) -> (value: u64)
        ensures
            value == self@.value,
    {
        self.value
    }

    /// Writes the output as a record of the canonical encoding.
    pub fn fields(&self) -> (fields: OutputFields)
        ensures
            fields.deep_view() == self@.record(),
    {
        let fields = (self.value, slice_to_vec(self.pub_key_hash.as_slice()));
        proof {
            lemma_bytes_deep_view(fields.1);
        }
        fields
    }

    /// Reads an output from a record of the canonical encoding.
    pub fn from_fields(fields: &OutputFields) -> (output: TXOutput)
        ensures
            output@ == OutputView::of_record(fields.deep_view()),
    {
        proof {
            lemma_bytes_deep_view(fields.1);
        }
        TXOutput { value: fields.0, pub_key_hash: slice_to_vec(fields.1.as_slice()) }
    }

    /// Returns the locking key as text. `None` exactly where the locking key
    /// is not UTF-8.
    pub fn get_script_pub_key(&self) -> (text: Option<String>)
        ensures
            match text {
                Some(t) => valid_utf8(self@.pub_key_hash) && t@ == decode_utf8(self@.pub_key_hash),
                None => !valid_utf8(self@.pub_key_hash),
            },
    {
        text_from_utf8(slice_to_vec(self.pub_key_hash.as_slice()))
    }
}

} // verus!
