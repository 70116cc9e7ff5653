//! Wallets: a key pair, the address derived from its public key, and the
//! address book that maps addresses to wallets.
use vstd::prelude::*;
use vstd::slice::slice_to_vec;
use vstd::string::StringExecFns;
use crate::address::ADDRESS_VERSION;
use crate::address::base58_encode;
use crate::address::encode_address;
use crate::address::spec_base58;
use crate::address::spec_decode_address;
use crate::address::spec_encode_address;
use crate::digest::hash_pub_key;
use crate::digest::RIPEMD160_LEN;
use crate::digest::spec_hash_pub_key;
use crate::keys::derive_public_key;
use crate::keys::DIGEST_LEN;
use crate::keys::parse_public_key;
use crate::keys::random_seed;
use crate::keys::schnorr_sign;
use crate::keys::schnorr_verify;
use crate::keys::spec_parse_public_key;
use crate::keys::spec_public_key;
use crate::keys::spec_schnorr_sign;
use crate::keys::spec_schnorr_verify;
use crate::lookup::lemma_index_from;
use crate::lookup::lemma_index_is;
use crate::lookup::lemma_index_none;
use crate::lookup::same_text;
use crate::lookup::spec_index_of;

verus! {

/// The locking hash of the public key that `public_key` encodes, if it
/// encodes one.
pub open spec fn spec_pub_key_hash(public_key: Seq<u8>) -> Option<Seq<u8>> {
    match spec_parse_public_key(public_key) {
        Some(key) => Some(spec_hash_pub_key(key)),
        None => None,
    }
}

/// The address of the public key that `public_key` encodes, if it encodes
/// one.
pub open spec fn spec_key_address(public_key: Seq<u8>) -> Option<Seq<char>> {
    match spec_pub_key_hash(public_key) {
        Some(hash) => Some(spec_encode_address(ADDRESS_VERSION, hash)),
        None => None,
    }
}

/// Computes the locking hash of a public key: RIPEMD-160 of the SHA-256
/// digest of its compressed form. `None` where the bytes encode no key.
pub fn get_pub_key_hash(public_key: &[u8]) -> (hash: Option<Vec<u8>>)
    ensures
        match hash {
            Some(h) => spec_pub_key_hash(public_key@) == Some(h@) && h@.len() == RIPEMD160_LEN,
            None => spec_pub_key_hash(public_key@) is None,
        },
{
    match parse_public_key(public_key) {
        Some(key) => {
            let mut hash = key;
            hash_pub_key(&mut hash);
            Some(hash)
        },
        None => None,
    }
}

/// What a wallet holds.
pub struct WalletView {
    pub private_key: Seq<u8>,
    pub public_key: Seq<u8>,
}

/// A key pair. A wallet made from a public key alone has an empty private
/// key.
#[derive(Debug)]
pub struct Wallet {
    pub private_key: Vec<u8>,
    pub public_key: Vec<u8>,
}

impl View for Wallet {
    type V = WalletView;

    open spec fn view(&self) -> WalletView {
        WalletView { private_key: self.private_key@, public_key: self.public_key@ }
    }
}

impl Clone for Wallet {
    fn clone(&self) -> (copy: Wallet)
        ensures
            copy@ == self@,
    {
        Wallet {
            private_key: slice_to_vec(self.private_key.as_slice()),
            public_key: slice_to_vec(self.public_key.as_slice()),
        }
    }
}

impl WalletView {
    /// Whether the public key is the one that belongs to the private key.
    pub open spec fn is_key_pair(self) -> bool {
        spec_public_key(self.private_key) == Some(self.public_key)
    }
}

impl Wallet {
    /// Makes a wallet from fresh random bytes. `None` where the bytes drawn
    /// are not a valid private key.
    pub fn new() -> (wallet: Option<Wallet>)
        ensures
            wallet is Some ==> wallet.unwrap()@.is_key_pair(),
    {
        match Wallet::generate_keypair() {
            Some((private_key, public_key)) => Some(Wallet { private_key, public_key }),
            None => None,
        }
    }

    /// Makes the wallet whose private key is `seed`. `None` exactly where
    /// `seed` is not a valid private key.
    pub fn from_seed(seed: &[u8]) -> (wallet: Option<Wallet>)
        ensures
            match wallet {
                Some(w) => w@.private_key == seed@ && w@.is_key_pair(),
                None => spec_public_key(seed@) is None,
            },
    {
        match derive_public_key(seed) {
            Some(public_key) => Some(Wallet { private_key: slice_to_vec(seed), public_key }),
            None => None,
        }
    }

    /// Returns a copy of the public key.
    pub fn get_pub_key(&self) -> (key: Vec<u8>)
        ensures
            key@ == self@.public_key,
    {
        slice_to_vec(self.public_key.as_slice())
    }

    /// Draws a private key at random and derives its public key. `None`
    /// where the bytes drawn are not a valid private key.
    pub fn generate_keypair() -> (pair: Option<(Vec<u8>, Vec<u8>)>)
        ensures
            pair is Some ==> spec_public_key(pair.unwrap().0@) == Some(pair.unwrap().1@),
    {
        let seed = random_seed();
        match Wallet::from_seed(seed.as_slice()) {
            Some(wallet) => Some((wallet.private_key, wallet.public_key)),
            None => None,
        }
    }

    /// Signs a 32-byte message digest with the private key. `None` exactly
    /// where the private key is not valid or the digest has another length.
    /// The signature is accepted under the public key of the private key.
    pub fn sign(&self, message: &[u8]) -> (signature: Option<Vec<u8>>)
        ensures
            signature.is_some() <==> (spec_public_key(self@.private_key).is_some() && message@.len()
                == DIGEST_LEN),
            match signature {
                Some(sig) => {
                    &&& spec_schnorr_sign(self@.private_key, message@) == Some(sig@)
                    &&& spec_schnorr_verify(
                        spec_public_key(self@.private_key).unwrap(),
                        message@,
                        sig@,
                    )
                },
                None => spec_schnorr_sign(self@.private_key, message@) is None,
            },
    {
        schnorr_sign(self.private_key.as_slice(), message)
    }

    /// Tells whether `signature` is accepted for the digest `message` under
    /// `public_key`.
    pub fn verify(public_key: &[u8], message: &[u8], signature: &[u8]) -> (accepted: bool)
        ensures
            accepted == spec_schnorr_verify(public_key@, message@, signature@),
    {
        schnorr_verify(public_key, message, signature)
    }

    /// Derives the address of a public key: the base58 text of the version
    /// byte, the locking hash and their checksum. `None` where the bytes
    /// encode no key.
    pub fn get_address_helper(public_key: &[u8]) -> (address: Option<String>)
        ensures
            match address {
                Some(a) => {
                    &&& spec_key_address(public_key@) == Some(a@)
                    &&& spec_decode_address(a@) == Some(
                        (ADDRESS_VERSION, spec_pub_key_hash(public_key@).unwrap()),
                    )
                },
                None => spec_key_address(public_key@) is None,
            },
    {
        match get_pub_key_hash(public_key) {
            Some(hash) => Some(encode_address(ADDRESS_VERSION, hash.as_slice())),
            None => None,
        }
    }

    /// Derives the address of this wallet from its public key.
    pub fn get_address(&self) -> (address: Option<String>)
        ensures
            match address {
                Some(a) => {
                    &&& spec_key_address(self@.public_key) == Some(a@)
                    &&& spec_decode_address(a@) == Some(
                        (ADDRESS_VERSION, spec_pub_key_hash(self@.public_key).unwrap()),
                    )
                },
                None => spec_key_address(self@.public_key) is None,
            },
    {
        Wallet::get_address_helper(self.public_key.as_slice())
    }

    /// Makes a wallet that holds `public_key` as given and no private key.
    pub fn from_pub_key(public_key: &[u8]) -> (wallet: Wallet)
        ensures
            wallet@.public_key == public_key@,
            wallet@.private_key == Seq::<u8>::empty(),
    {
        Wallet { private_key: Vec::new(), public_key: slice_to_vec(public_key) }
    }

    /// Makes a wallet from stored key material: it holds the compressed form
    /// of the key and no private key. `None` where the bytes encode no key.
    pub fn from_pub_key_hash(public_key_hash: &[u8]) -> (wallet: Option<Wallet>)
        ensures
            match wallet {
                Some(w) => {
                    &&& spec_parse_public_key(public_key_hash@) == Some(w@.public_key)
                    &&& w@.private_key == Seq::<u8>::empty()
                },
                None => spec_parse_public_key(public_key_hash@) is None,
            },
    {
        match parse_public_key(public_key_hash) {
            Some(public_key) => Some(Wallet { private_key: Vec::new(), public_key }),
            None => None,
        }
    }

    /// The text that [`Wallet::to_string`] returns.
    pub open spec fn spec_to_string(self) -> Seq<char> {
        "Private key: "@ + spec_base58(self@.private_key) + "\nPublic key: "@ + spec_base58(
            self@.public_key,
        )
    }

    /// Writes both keys as base58 text.
    pub fn to_string(&self) -> (text: String)
        ensures
            text@ == self.spec_to_string(),
    {
        let private_key = base58_encode(self.private_key.as_slice());
        let public_key = base58_encode(self.public_key.as_slice());
        let mut text = String::from_str("Private key: ");
        text.append(private_key.as_str());
        text.append("\nPublic key: ");
        text.append(public_key.as_str());
        text
    }
}

/// The addresses of an address book, in its order.
pub open spec fn spec_book_addresses(book: Seq<(Seq<char>, WalletView)>) -> Seq<Seq<char>> {
    Seq::new(book.len(), |i: int| book[i].0)
}

/// The wallet that an address book holds under `address`, if it holds one.
pub open spec fn spec_book_get(book: Seq<(Seq<char>, WalletView)>, address: Seq<char>) -> Option<
    WalletView,
> {
    match spec_index_of(spec_book_addresses(book), address) {
        Some(i) => Some(book[i].1),
        None => None,
    }
}

/// An address book after `wallet` was put under `address`: it takes the
/// place of the wallet that stood there, or comes last.
pub open spec fn spec_book_insert(
    book: Seq<(Seq<char>, WalletView)>,
    address: Seq<char>,
    wallet: WalletView,
) -> Seq<(Seq<char>, WalletView)> {
    match spec_index_of(spec_book_addresses(book), address) {
        Some(i) => book.update(i, (address, wallet)),
        None => book.push((address, wallet)),
    }
}

/// Whether every wallet of an address book stands under its own address:
/// the address of its public key.
pub open spec fn spec_book_keyed(book: Seq<(Seq<char>, WalletView)>) -> bool {
    forall|i: int|
        0 <= i < book.len() ==> spec_key_address((#[trigger] book[i]).1.public_key) == Some(
            book[i].0,
        )
}

/// In a book in which every wallet stands under its own address, the wallet
/// found under an address has that address.
pub proof fn lemma_keyed_book_get(book: Seq<(Seq<char>, WalletView)>, address: Seq<char>)
    requires
        spec_book_keyed(book),
        spec_book_get(book, address) is Some,
    ensures
        spec_key_address(spec_book_get(book, address).unwrap().public_key) == Some(address),
{
    lemma_index_from(spec_book_addresses(book), address, 0);
}

/// A book in which every wallet stands under its own address stays so where
/// a wallet is put under its own address.
pub proof fn lemma_keyed_book_insert(
    book: Seq<(Seq<char>, WalletView)>,
    address: Seq<char>,
    wallet: WalletView,
)
    requires
        spec_book_keyed(book),
        spec_key_address(wallet.public_key) == Some(address),
    ensures
        spec_book_keyed(spec_book_insert(book, address, wallet)),
{
    lemma_index_from(spec_book_addresses(book), address, 0);
    let after = spec_book_insert(book, address, wallet);
    assert forall|i: int| 0 <= i < after.len() implies spec_key_address(
        (#[trigger] after[i]).1.public_key,
    ) == Some(after[i].0) by {
        if i < book.len() && after[i] != (address, wallet) {
            assert(after[i] == book[i]);
        }
    }
}

/// An address book: wallets by address, in the order in which their
/// addresses first came.
#[derive(Debug)]
pub struct Wallets {
    wallets: Vec<(String, Wallet)>,
}

impl View for Wallets {
    type V = Seq<(Seq<char>, WalletView)>;

    closed spec fn view(&self) -> Seq<(Seq<char>, WalletView)> {
        Seq::new(self.wallets@.len(), |i: int| (self.wallets@[i].0@, self.wallets@[i].1@))
    }
}

impl Wallets {
    /// Makes an empty address book.
    pub fn new() -> (book: Wallets)
        ensures
            book@ == Seq::<(Seq<char>, WalletView)>::empty(),
    {
        let book = Wallets { wallets: Vec::new() };
        assert(book@ =~= Seq::<(Seq<char>, WalletView)>::empty());
        book
    }

    fn position(&self, address: &str) -> (at: Option<usize>)
        ensures
            match at {
                Some(i) => spec_index_of(spec_book_addresses(self@), address@) == Some(i as int)
                    && i < self.wallets@.len(),
                None => spec_index_of(spec_book_addresses(self@), address@) is None,
            },
    {
        let ghost keys = spec_book_addresses(self@);
        let mut i: usize = 0;
        while i < self.wallets.len()
            invariant
                i <= self.wallets@.len(),
                keys == spec_book_addresses(self@),
                keys.len() == self.wallets@.len(),
                forall|j: int| 0 <= j < i ==> keys[j] != address@,
            decreases self.wallets.len() - i,
        {
            if same_text(self.wallets[i].0.as_str(), address) {
                proof {
                    lemma_index_is(keys, address@, 0, i as int);
                }
                return Some(i);
            }
            i += 1;
        }
        proof {
            lemma_index_none(keys, address@, 0);
        }
        None
    }

    /// Puts `wallet` under `address`, in place of the wallet that stood
    /// there, if any.
    pub fn insert(&mut self, address: String, wallet: Wallet)
        ensures
            final(self)@ == spec_book_insert(old(self)@, address@, wallet@),
            spec_book_keyed(old(self)@) && spec_key_address(wallet@.public_key) == Some(address@)
                ==> spec_book_keyed(final(self)@),
    {
        proof {
            if spec_book_keyed(old(self)@) && spec_key_address(wallet@.public_key) == Some(
                address@,
            ) {
                lemma_keyed_book_insert(old(self)@, address@, wallet@);
            }
        }
        match self.position(address.as_str()) {
            Some(i) => {
                self.wallets.set(i, (address, wallet));
                assert(final(self)@ =~= spec_book_insert(old(self)@, address@, wallet@));
            },
            None => {
                self.wallets.push((address, wallet));
                assert(final(self)@ =~= spec_book_insert(old(self)@, address@, wallet@));
            },
        }
    }

    /// Makes a wallet with a fresh key pair, puts it into the book under its
    /// address and returns the address. `None`, and the book unchanged,
    /// where the bytes drawn are not a valid private key.
    pub fn create_wallet(&mut self) -> (address: Option<String>)
        ensures
            match address {
                Some(a) => exists|wallet: WalletView|
                    {
                        &&& wallet.is_key_pair()
                        &&& spec_key_address(wallet.public_key) == Some(a@)
                        &&& final(self)@ == #[trigger] spec_book_insert(old(self)@, a@, wallet)
                    },
                None => final(self)@ == old(self)@,
            },
            spec_book_keyed(old(self)@) ==> spec_book_keyed(final(self)@),
    {
        match Wallet::new() {
            Some(wallet) => {
                let ghost model = wallet@;
                let address = self.add_wallet(wallet);
                proof {
                    if address is Some {
                        assert(final(self)@ == spec_book_insert(
                            old(self)@,
                            address.unwrap()@,
                            model,
                        ));
                    }
                }
                address
            },
            None => None,
        }
    }

    /// Puts `wallet` into the book under the address of its public key and
    /// returns the address. `None`, and the book unchanged, exactly where
    /// the public key encodes no key and so has no address.
    pub fn add_wallet(&mut self, wallet: Wallet) -> (address: Option<String>)
        ensures
            match address {
                Some(a) => {
                    &&& spec_key_address(wallet@.public_key) == Some(a@)
                    &&& final(self)@ == spec_book_insert(old(self)@, a@, wallet@)
                },
                None => {
                    &&& spec_key_address(wallet@.public_key) is None
                    &&& final(self)@ == old(self)@
                },
            },
            spec_book_keyed(old(self)@) ==> spec_book_keyed(final(self)@),
    {
        match wallet.get_address() {
            Some(address) => {
                self.insert(address.clone(), wallet);
                Some(address)
            },
            None => None,
        }
    }

    /// Returns a copy of the wallet under `address`, if the book holds one.
    pub fn get_wallet(&self, address: &str) -> (wallet: Option<Wallet>)
        ensures
            match wallet {
                Some(w) => {
                    &&& spec_book_get(self@, address@) == Some(w@)
                    &&& spec_book_keyed(self@) ==> spec_key_address(w@.public_key) == Some(
                        address@,
                    )
                },
                None => spec_book_get(self@, address@) is None,
            },
    {
        proof {
            if spec_book_keyed(self@) && spec_book_get(self@, address@) is Some {
                lemma_keyed_book_get(self@, address@);
            }
        }
        match self.position(address) {
            Some(i) => Some(self.wallets[i].1.clone()),
            None => None,
        }
    }

    /// Returns copies of all entries, in the book's order.
    pub fn get_wallets(&self) -> (entries: Vec<(String, Wallet)>)
        ensures
            entries@.len() == self@.len(),
            forall|i: int|
                0 <= i < entries@.len() ==> (#[trigger] entries@[i]).0@ == self@[i].0
                    && entries@[i].1@ == self@[i].1,
    {
        let mut entries: Vec<(String, Wallet)> = Vec::new();
        let mut i: usize = 0;
        while i < self.wallets.len()
            invariant
                i <= self.wallets@.len(),
                entries@.len() == i,
                forall|j: int|
                    0 <= j < i ==> (#[trigger] entries@[j]).0@ == self@[j].0 && entries@[j].1@
                        == self@[j].1,
            decreases self.wallets.len() - i,
        {
            entries.push((self.wallets[i].0.clone(), self.wallets[i].1.clone()));
            i += 1;
        }
        entries
    }

    /// Returns all addresses, in the book's order.
    pub fn get_addresses(&self) -> (addresses: Vec<String>)
        ensures
            addresses@.len() == self@.len(),
            forall|i: int| 0 <= i < addresses@.len() ==> (#[trigger] addresses@[i])@ == self@[i].0,
    {
        let mut addresses: Vec<String> = Vec::new();
        let mut i: usize = 0;
        while i < self.wallets.len()
            invariant
                i <= self.wallets@.len(),
                addresses@.len() == i,
                forall|j: int| 0 <= j < i ==> (#[trigger] addresses@[j])@ == self@[j].0,
            decreases self.wallets.len() - i,
        {
            addresses.push(self.wallets[i].0.clone());
            i += 1;
        }
        addresses
    }
}

/// Makes an empty address book.
pub fn new_wallets() -> (book: Wallets)
    ensures
        book@ == Seq::<(Seq<char>, WalletView)>::empty(),
{
    Wallets::new()
}

/// Makes a wallet from fresh random bytes. `None` where the bytes drawn are
/// not a valid private key.
pub fn new_wallet() -> (wallet: Option<Wallet>)
    ensures
        wallet is Some ==> wallet.unwrap()@.is_key_pair(),
{
    Wallet::new()
}

} // verus!
