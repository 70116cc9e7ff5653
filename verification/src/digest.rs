//! Cryptographic digests used for hashing blocks, transactions and keys.
use vstd::prelude::*;

verus! {

/// The SHA-256 digest of a byte string.
pub uninterp spec fn spec_sha256(data: Seq<u8>) -> Seq<u8>;

/// The RIPEMD-160 digest of a byte string.
pub uninterp spec fn spec_ripemd160(data: Seq<u8>) -> Seq<u8>;

/// Length in bytes of a SHA-256 digest.
pub const SHA256_LEN: usize = 32;

/// Length in bytes of a RIPEMD-160 digest.
pub const RIPEMD160_LEN: usize = 20;

/// Calls `sha2::Sha256::digest`. Trusted: the result is the SHA-256 digest of
/// `data`, which is always 32 bytes long.
#[verifier::external_body]
pub(crate) fn sha256(data: &[u8]) -> (out: Vec<u8>)
    ensures
        out@ == spec_sha256(data@),
        out@.len() == SHA256_LEN,
{
    <sha2::Sha256 as sha2::Digest>::digest(data).to_vec()
}

/// Calls `crypto::ripemd160::Ripemd160` (`new`, `input`, `result`). Trusted:
/// the result is the RIPEMD-160 digest of `data`, which is always 20 bytes
/// long.
#[verifier::external_body]
pub(crate) fn ripemd160(data: &[u8]) -> (out: Vec<u8>)
    ensures
        out@ == spec_ripemd160(data@),
        out@.len() == RIPEMD160_LEN,
{
    let mut hasher = crypto::ripemd160::Ripemd160::new();
    crypto::digest::Digest::input(&mut hasher, data);
    let mut out = vec![0u8; 20];
    crypto::digest::Digest::result(&mut hasher, &mut out);
    out
}

/// The locking hash of a public key: RIPEMD-160 of its SHA-256 digest.
pub open spec fn spec_hash_pub_key(pub_key: Seq<u8>) -> Seq<u8> {
    spec_ripemd160(spec_sha256(pub_key))
}

/// Replaces `pub_key` by its locking hash.
pub fn hash_pub_key(pub_key: &mut Vec<u8>)
    ensures
        final(pub_key)@ == spec_hash_pub_key(old(pub_key)@),
        final(pub_key)@.len() == RIPEMD160_LEN,
{
    let first = sha256(pub_key.as_slice());
    let second = ripemd160(first.as_slice());
    *pub_key = second;
}

} // verus!
