use rustychain::errors::LedgerError;
use rustychain::hex::to_hex;
use rustychain::wallet::get_pub_key_hash;
use rustychain::wallet::new_wallet;
use rustychain::wallet::new_wallets;
use rustychain::wallet::Wallet;
use rustychain::wallet::Wallets;

fn seed(last: u8) -> Vec<u8> {
    let mut bytes = vec![0u8; 32];
    bytes[31] = last;
    bytes
}

#[test]
fn public_key_of_a_known_private_key() {
    let wallet = Wallet::from_seed(&seed(1)).unwrap();
    assert_eq!(
        to_hex(&wallet.get_pub_key()),
        "0279be667ef9dcbbac55a06295ce870b07029bfcdb2dce28d959f2815b16f81798"
    );
    assert_eq!(wallet.private_key, seed(1));
}

#[test]
fn invalid_private_keys_make_no_wallet() {
    assert!(Wallet::from_seed(&[0u8; 32]).is_none());
    assert!(Wallet::from_seed(&[0xffu8; 32]).is_none());
    assert!(Wallet::from_seed(&[1u8; 31]).is_none());
    assert!(Wallet::from_seed(&[]).is_none());
}

#[test]
fn fresh_wallets_differ_and_hold_key_pairs() {
    let a = new_wallet().unwrap();
    let b = Wallet::new().unwrap();
    assert_ne!(a.private_key, b.private_key);
    assert_eq!(a.private_key.len(), 32);
    assert_eq!(a.public_key.len(), 33);
    let again = Wallet::from_seed(&a.private_key).unwrap();
    assert_eq!(again.public_key, a.public_key);
    let (secret, public) = Wallet::generate_keypair().unwrap();
    assert_eq!(Wallet::from_seed(&secret).unwrap().public_key, public);
}

#[test]
fn sign_then_verify_accepts() {
    let wallet = Wallet::from_seed(&seed(7)).unwrap();
    let digest = [0x5au8; 32];
    let signature = wallet.sign(&digest).unwrap();
    assert_eq!(signature.len(), 64);
    assert!(Wallet::verify(&wallet.public_key, &digest, &signature));
}

#[test]
fn verify_rejects_changed_signature_key_or_message() {
    let wallet = Wallet::from_seed(&seed(7)).unwrap();
    let other = Wallet::from_seed(&seed(8)).unwrap();
    let digest = [0x5au8; 32];
    let signature = wallet.sign(&digest).unwrap();
    for at in 0..signature.len() {
        let mut changed = signature.clone();
        changed[at] ^= 1;
        assert!(!Wallet::verify(&wallet.public_key, &digest, &changed));
    }
    assert!(!Wallet::verify(&other.public_key, &digest, &signature));
    assert!(!Wallet::verify(&wallet.public_key, &[0x5bu8; 32], &signature));
    assert!(!Wallet::verify(&wallet.public_key, &digest, &signature[..63]));
    assert!(!Wallet::verify(&wallet.public_key, &digest[..31], &signature));
    assert!(!Wallet::verify(&[], &digest, &signature));
}

#[test]
fn sign_needs_a_valid_key_and_a_digest() {
    let wallet = Wallet::from_seed(&seed(7)).unwrap();
    assert!(wallet.sign(&[1u8; 31]).is_none());
    assert!(wallet.sign(&[1u8; 33]).is_none());
    let public_only = Wallet::from_pub_key(&wallet.public_key);
    assert!(public_only.private_key.is_empty());
    assert_eq!(public_only.public_key, wallet.public_key);
    assert!(public_only.sign(&[1u8; 32]).is_none());
}

#[test]
fn address_is_derived_from_the_public_key() {
    let wallet = Wallet::from_seed(&seed(1)).unwrap();
    let address = wallet.get_address().unwrap();
    assert_eq!(Wallet::get_address_helper(&wallet.public_key), Some(address.clone()));
    let hash = get_pub_key_hash(&wallet.public_key).unwrap();
    assert_eq!(to_hex(&hash), "751e76e8199196d454941c45d1b3a323f1433bd6");
    assert_eq!(hash.len(), 20);
    assert_eq!(address, "1BgGZ9tcN4rm9KBzDn7KprQz87SZ26SAMH");
    assert_eq!(rustychain::address::decode_address(&address), Some((0u8, hash)));
}

#[test]
fn uncompressed_key_has_the_address_of_its_compressed_form() {
    let uncompressed: Vec<u8> = (0..65)
        .map(|i| {
            let text = "0479be667ef9dcbbac55a06295ce870b07029bfcdb2dce28d959f2815b16f81798483ada7726a3c4655da4fbfc0e1108a8fd17b448a68554199c47d08ffb10d4b8";
            u8::from_str_radix(&text[2 * i..2 * i + 2], 16).unwrap()
        })
        .collect();
    let wallet = Wallet::from_seed(&seed(1)).unwrap();
    assert_eq!(Wallet::get_address_helper(&uncompressed), wallet.get_address());
    assert_eq!(Wallet::from_pub_key_hash(&uncompressed).unwrap().public_key, wallet.public_key);
}

#[test]
fn bytes_that_are_no_key_have_no_address() {
    assert_eq!(get_pub_key_hash(&[]), None);
    assert_eq!(get_pub_key_hash(&[5u8; 33]), None);
    assert_eq!(Wallet::get_address_helper(b"Alice"), None);
    assert!(Wallet::from_pub_key_hash(b"Alice").is_none());
}

#[test]
fn wallet_text_is_base58_of_both_keys() {
    let wallet = Wallet {
        private_key: vec![],
        public_key: vec![0x04, 0x30, 0x5e, 0x2b, 0x24, 0x73, 0xf0, 0x58],
    };
    assert_eq!(wallet.to_string(), "Private key: \nPublic key: he11owor1d");
    let both = Wallet { private_key: vec![0, 0, 1], public_key: vec![0x61] };
    assert_eq!(both.to_string(), "Private key: 112\nPublic key: 2g");
}

#[test]
fn address_book_keeps_wallets_by_address() {
    let mut book = new_wallets();
    assert!(book.get_addresses().is_empty());
    let first = book.create_wallet().unwrap();
    let second = book.create_wallet().unwrap();
    assert_ne!(first, second);
    assert_eq!(book.get_addresses(), vec![first.clone(), second.clone()]);
    let wallet = book.get_wallet(&first).unwrap();
    assert_eq!(wallet.get_address(), Some(first.clone()));
    assert!(book.get_wallet("nobody").is_none());
    let entries = book.get_wallets();
    assert_eq!(entries.len(), 2);
    assert_eq!(entries[1].0, second);
    assert_eq!(entries[1].1.get_address(), Some(second));
}

#[test]
fn address_book_insert_replaces_the_wallet_under_an_address() {
    let mut book = Wallets::new();
    let a = Wallet::from_seed(&seed(1)).unwrap();
    let b = Wallet::from_seed(&seed(2)).unwrap();
    book.insert("x".to_string(), a.clone());
    book.insert("y".to_string(), a.clone());
    book.insert("x".to_string(), b.clone());
    assert_eq!(book.get_addresses(), vec!["x".to_string(), "y".to_string()]);
    assert_eq!(book.get_wallet("x").unwrap().public_key, b.public_key);
    assert_eq!(book.get_wallet("y").unwrap().public_key, a.public_key);
}

#[test]
fn every_error_has_its_message() {
    assert_eq!(LedgerError::UnknownAddress.message(), "ERROR: Wallet not found");
    assert_eq!(LedgerError::InsufficientFunds.message(), "ERROR: Not enough funds");
    assert_eq!(
        LedgerError::MissingReferencedTransaction.message(),
        "ERROR: Previous transaction is not correct"
    );
    assert_eq!(LedgerError::EncodingFailure.message(), "ERROR: Encoding failed");
    assert_eq!(LedgerError::StorageCorruption.message(), "ERROR: Block store is corrupted");
    assert_eq!(LedgerError::InvalidKey.message(), "ERROR: Invalid private key");
    assert_eq!(LedgerError::NonceExhausted.message(), "ERROR: No nonce seals the block");
    assert_eq!(LedgerError::ClockUnavailable.message(), "ERROR: Clock unavailable");
}

#[test]
fn add_wallet_files_a_wallet_under_its_address() {
    let mut book = Wallets::new();
    let wallet = Wallet::from_seed(&seed(1)).unwrap();
    assert_eq!(book.add_wallet(wallet), Some("1BgGZ9tcN4rm9KBzDn7KprQz87SZ26SAMH".to_string()));
    assert_eq!(book.add_wallet(Wallet::from_pub_key(b"no key")), None);
    assert_eq!(book.get_addresses(), vec!["1BgGZ9tcN4rm9KBzDn7KprQz87SZ26SAMH".to_string()]);
}
