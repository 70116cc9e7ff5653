//! Wallet addresses: base58 text of a version byte, a locking hash and a
//! four-byte checksum.
use vstd::prelude::*;
use vstd::slice::slice_subrange;
use vstd::slice::slice_to_vec;
use crate::digest::sha256;
use crate::digest::spec_sha256;

verus! {

/// The base58 text of a byte string.
pub uninterp spec fn spec_base58(data: Seq<u8>) -> Seq<char>;

/// The byte string that a base58 text stands for, if it is base58 text.
pub uninterp spec fn spec_base58_decode(text: Seq<char>) -> Option<Seq<u8>>;

/// Number of checksum bytes at the end of an address.
pub const CHECKSUM_LEN: usize = 4;

/// The version byte of the addresses that wallets hand out.
pub const ADDRESS_VERSION: u8 = 0;

/// Calls `bs58::encode(..).into_string()`. Trusted: the result is the base58
/// text of `data` in the default alphabet, and decoding that text gives
/// `data` back.
#[verifier::external_body]
pub(crate) fn base58_encode(data: &[u8]) -> (text: String)
    ensures
        text@ == spec_base58(data@),
        spec_base58_decode(text@) == Some(data@),
{
    bs58::encode(data).into_string()
}

/// Calls `bs58::decode(..).into_vec()`. Trusted: the result is the byte
/// string that `text` stands for, or `None` where `text` holds a character
/// outside the default alphabet.
#[verifier::external_body]
pub(crate) fn base58_decode(text: &str) -> (data: Option<Vec<u8>>)
    ensures
        match data {
            Some(bytes) => spec_base58_decode(text@) == Some(bytes@),
            None => spec_base58_decode(text@) is None,
        },
{
    bs58::decode(text).into_vec().ok()
}

/// The checksum of an address payload: the first four bytes of the SHA-256
/// digest of its SHA-256 digest.
pub open spec fn spec_checksum(payload: Seq<u8>) -> Seq<u8> {
    spec_sha256(spec_sha256(payload)).subrange(0, CHECKSUM_LEN as int)
}

/// The bytes that an address is the base58 text of.
pub open spec fn spec_address_bytes(version: u8, hash: Seq<u8>) -> Seq<u8> {
    (seq![version] + hash) + spec_checksum(seq![version] + hash)
}

/// The address of a version byte and a locking hash.
pub open spec fn spec_encode_address(version: u8, hash: Seq<u8>) -> Seq<char> {
    spec_base58(spec_address_bytes(version, hash))
}

/// Whether `data` is a version byte and a hash followed by their checksum.
pub open spec fn spec_checksum_holds(data: Seq<u8>) -> bool {
    &&& data.len() > CHECKSUM_LEN
    &&& data.subrange(data.len() - CHECKSUM_LEN, data.len() as int) == spec_checksum(
        data.subrange(0, data.len() - CHECKSUM_LEN),
    )
}

/// The version byte and locking hash that an address carries, if its text is
/// base58 and its checksum holds.
pub open spec fn spec_decode_address(text: Seq<char>) -> Option<(u8, Seq<u8>)> {
    match spec_base58_decode(text) {
        Some(data) => if spec_checksum_holds(data) {
            Some((data[0], data.subrange(1, data.len() - CHECKSUM_LEN)))
        } else {
            None
        },
        None => None,
    }
}

/// Compares two byte strings.
pub fn bytes_eq(a: &[u8], b: &[u8]) -> (same: bool)
    ensures
        same == (a@ == b@),
{
    if a.len() != b.len() {
        return false;
    }
    let mut i: usize = 0;
    while i < a.len()
        invariant
            i <= a.len(),
            a.len() == b.len(),
            forall|k: int| 0 <= k < i ==> a@[k] == b@[k],
        decreases a.len() - i,
    {
        if a[i] != b[i] {
            return false;
        }
        i += 1;
    }
    assert(a@ =~= b@);
    true
}

fn checksum(payload: &[u8]) -> (sum: Vec<u8>)
    ensures
        sum@ == spec_checksum(payload@),
        sum@.len() == CHECKSUM_LEN,
{
    let first = sha256(payload);
    let second = sha256(first.as_slice());
    slice_to_vec(slice_subrange(second.as_slice(), 0, CHECKSUM_LEN))
}

/// Encodes a version byte and a locking hash as an address. Decoding the
/// address gives the version byte and the hash back.
pub fn encode_address(version: u8, hash: &[u8]) -> (address: String)
    ensures
        address@ == spec_encode_address(version, hash@),
        spec_decode_address(address@) == Some((version, hash@)),
{
    let mut payload: Vec<u8> = Vec::new();
    payload.push(version);
    let mut i: usize = 0;
    while i < hash.len()
        invariant
            i <= hash.len(),
            payload@ == seq![version] + hash@.subrange(0, i as int),
        decreases hash.len() - i,
    {
        payload.push(hash[i]);
        assert(payload@ =~= seq![version] + hash@.subrange(0, i + 1));
        i += 1;
    }
    assert(hash@.subrange(0, hash@.len() as int) =~= hash@);
    let sum = checksum(payload.as_slice());
    let ghost body = payload@;
    let mut k: usize = 0;
    while k < CHECKSUM_LEN
        invariant
            k <= CHECKSUM_LEN,
            sum@.len() == CHECKSUM_LEN,
            payload@ == body + sum@.subrange(0, k as int),
        decreases CHECKSUM_LEN - k,
    {
        payload.push(sum[k]);
        assert(payload@ =~= body + sum@.subrange(0, k + 1));
        k += 1;
    }
    assert(sum@.subrange(0, CHECKSUM_LEN as int) =~= sum@);
    let address = base58_encode(payload.as_slice());
    proof {
        let data = payload@;
        assert(data.subrange(0, data.len() - CHECKSUM_LEN) =~= body);
        assert(data.subrange(data.len() - CHECKSUM_LEN, data.len() as int) =~= sum@);
        assert(data.subrange(1, data.len() - CHECKSUM_LEN) =~= hash@);
    }
    address
}

/// Decodes an address into its version byte and locking hash. The address is
/// rejected where it is not base58 text or its last four bytes are not the
/// checksum of what precedes them.
pub fn decode_address(address: &str) -> (parts: Option<(u8, Vec<u8>)>)
    ensures
        match parts {
            Some((version, hash)) => spec_decode_address(address@) == Some((version, hash@)),
            None => spec_decode_address(address@) is None,
        },
{
    match base58_decode(address) {
        None => None,
        Some(data) => {
            if data.len() <= CHECKSUM_LEN {
                return None;
            }
            let split = data.len() - CHECKSUM_LEN;
            let payload = slice_subrange(data.as_slice(), 0, split);
            let expected = checksum(payload);
            let given = slice_subrange(data.as_slice(), split, data.len());
            if !bytes_eq(given, expected.as_slice()) {
                return None;
            }
            let hash = slice_to_vec(slice_subrange(data.as_slice(), 1, split));
            Some((data[0], hash))
        },
    }
}

/// Tells whether `address` is base58 text whose checksum holds.
pub fn verify_address(address: &str) -> (valid: bool)
    ensures
        valid == spec_decode_address(address@).is_some(),
{
    decode_address(address).is_some()
}

} // verus!
