//! Key pairs and Schnorr signatures over the secp256k1 curve.
use vstd::prelude::*;

verus! {

/// Length in bytes of a private key.
pub const SECRET_KEY_LEN: usize = 32;

/// Length in bytes of a public key in compressed form.
pub const PUBLIC_KEY_LEN: usize = 33;

/// Length in bytes of a message digest that can be signed.
pub const DIGEST_LEN: usize = 32;

/// Length in bytes of a signature.
pub const SIGNATURE_LEN: usize = 64;

/// The compressed public key of a private key, if the private key is valid.
pub uninterp spec fn spec_public_key(secret: Seq<u8>) -> Option<Seq<u8>>;

/// The compressed form of the public key that `bytes` encode, if they
/// encode one.
pub uninterp spec fn spec_parse_public_key(bytes: Seq<u8>) -> Option<Seq<u8>>;

/// The signature of `digest` under a private key, if the key is valid and
/// the digest has the length of one.
pub uninterp spec fn spec_schnorr_sign(secret: Seq<u8>, digest: Seq<u8>) -> Option<Seq<u8>>;

/// Whether `signature` is accepted for `digest` under a public key.
pub uninterp spec fn spec_schnorr_verify(
    public: Seq<u8>,
    digest: Seq<u8>,
    signature: Seq<u8>,
) -> bool;

/// Calls `rand::random`. Trusted: nothing is claimed of the bytes.
#[verifier::external_body]
pub(crate) fn random_seed() -> (seed: [u8; 32]) {
    rand::random::<[u8; 32]>()
}

/// Calls `secp256k1::SecretKey::from_slice`, `PublicKey::from_secret_key`
/// and `PublicKey::serialize`. Trusted: the result is the compressed public
/// key of `secret`, 33 bytes that parse to themselves, or `None` where
/// `secret` is not a valid private key; a valid private key has 32 bytes.
#[verifier::external_body]
pub(crate) fn derive_public_key(secret: &[u8]) -> (public: Option<Vec<u8>>)
    ensures
        match public {
            Some(key) => {
                &&& spec_public_key(secret@) == Some(key@)
                &&& key@.len() == PUBLIC_KEY_LEN
                &&& secret@.len() == SECRET_KEY_LEN
                &&& spec_parse_public_key(key@) == Some(key@)
            },
            None => spec_public_key(secret@) is None,
        },
{
    let secp = secp256k1::Secp256k1::new();
    match secp256k1::SecretKey::from_slice(secret) {
        Ok(sk) => Some(secp256k1::PublicKey::from_secret_key(&secp, &sk).serialize().to_vec()),
        Err(_) => None,
    }
}

/// Calls `secp256k1::PublicKey::from_slice` and `PublicKey::serialize`.
/// Trusted: the result is the compressed form of the key that `bytes`
/// encode, 33 bytes that parse to themselves, or `None` where `bytes` encode
/// no public key.
#[verifier::external_body]
pub(crate) fn parse_public_key(bytes: &[u8]) -> (public: Option<Vec<u8>>)
    ensures
        match public {
            Some(key) => {
                &&& spec_parse_public_key(bytes@) == Some(key@)
                &&& key@.len() == PUBLIC_KEY_LEN
                &&& spec_parse_public_key(key@) == Some(key@)
            },
            None => spec_parse_public_key(bytes@) is None,
        },
{
    match secp256k1::PublicKey::from_slice(bytes) {
        Ok(pk) => Some(pk.serialize().to_vec()),
        Err(_) => None,
    }
}

/// Calls `secp256k1::SecretKey::from_slice`, `Message::from_digest_slice`,
/// `Keypair::from_secret_key` and `Secp256k1::sign_schnorr_no_aux_rand`.
/// Trusted: the result is the 64-byte signature of `digest` under `secret`;
/// it is there exactly where `secret` is a valid private key and `digest`
/// has 32 bytes; and the signature is accepted for `digest` under the public
/// key of `secret`.
#[verifier::external_body]
pub(crate) fn schnorr_sign(secret: &[u8], digest: &[u8]) -> (signature: Option<Vec<u8>>)
    ensures
        signature.is_some() <==> (spec_public_key(secret@).is_some() && digest@.len()
            == DIGEST_LEN),
        match signature {
            Some(sig) => {
                &&& spec_schnorr_sign(secret@, digest@) == Some(sig@)
                &&& sig@.len() == SIGNATURE_LEN
                &&& spec_schnorr_verify(spec_public_key(secret@).unwrap(), digest@, sig@)
            },
            None => spec_schnorr_sign(secret@, digest@) is None,
        },
{
    let secp = secp256k1::Secp256k1::new();
    let key = secp256k1::SecretKey::from_slice(secret);
    let message = secp256k1::Message::from_digest_slice(digest);
    match (key, message) {
        (Ok(sk), Ok(msg)) => {
            let pair = secp256k1::Keypair::from_secret_key(&secp, &sk);
            Some(secp.sign_schnorr_no_aux_rand(&msg, &pair).serialize().to_vec())
        },
        _ => None,
    }
}

/// Calls `secp256k1::PublicKey::from_slice`, `Message::from_digest_slice`,
/// `schnorr::Signature::from_slice` and `Secp256k1::verify_schnorr`.
/// Trusted: the result tells whether `signature` is accepted for `digest`
/// under `public`; it is `false` where one of the three does not parse.
#[verifier::external_body]
pub(crate) fn schnorr_verify(public: &[u8], digest: &[u8], signature: &[u8]) -> (accepted: bool)
    ensures
        accepted == spec_schnorr_verify(public@, digest@, signature@),
{
    let secp = secp256k1::Secp256k1::new();
    let key = secp256k1::PublicKey::from_slice(public);
    let message = secp256k1::Message::from_digest_slice(digest);
    let sig = secp256k1::schnorr::Signature::from_slice(signature);
    match (key, message, sig) {
        (Ok(pk), Ok(msg), Ok(s)) => secp.verify_schnorr(&s, &msg, &pk.x_only_public_key().0).is_ok(),
        _ => false,
    }
}

} // verus!
