use rustychain::errors::LedgerError;
use rustychain::hex::to_hex;
use rustychain::transaction::total_value;
use rustychain::transaction::Transaction;
use rustychain::transaction::SUBSIDY;
use rustychain::tx::TXInput;
use rustychain::tx::TXOutput;
use rustychain::tx::COINBASE_VOUT;
use rustychain::wallet::Wallet;

fn seed(last: u8) -> Vec<u8> {
    let mut bytes = vec![0u8; 32];
    bytes[31] = last;
    bytes
}

fn wallet(last: u8) -> Wallet {
    Wallet::from_seed(&seed(last)).unwrap()
}

fn spend(owner: &Wallet, prev: &Transaction, index: i64, outputs: Vec<TXOutput>) -> Transaction {
    let input = TXInput::new(prev.get_id(), index, vec![], owner.get_pub_key());
    let mut tx = Transaction::from_parts(String::new(), vec![input], outputs);
    tx.set_id().unwrap();
    tx
}

#[test]
fn coinbase_has_one_marker_input_and_pays_the_subsidy() {
    let tx = Transaction::new_coinbase("Alice".to_string(), "Bob".to_string()).unwrap();
    assert!(tx.is_coinbase());
    let ins = tx.get_ins();
    assert_eq!(ins.len(), 1);
    assert_eq!(ins[0].get_txid(), "");
    assert_eq!(ins[0].get_vout(), COINBASE_VOUT);
    assert_eq!(ins[0].get_vout(), -1);
    assert!(ins[0].get_signature().is_empty());
    assert_eq!(ins[0].get_pub_key(), b"Bob".to_vec());
    let outs = tx.get_outs();
    assert_eq!(outs.len(), 1);
    assert_eq!(outs[0].get_value(), SUBSIDY);
    assert_eq!(outs[0].get_value(), 100);
    assert_eq!(outs[0].get_script_pub_key(), Some("Alice".to_string()));
    assert!(outs[0].can_be_unlocked_with("Alice".to_string()));
    assert!(!outs[0].can_be_unlocked_with("Bob".to_string()));
}

#[test]
fn coinbase_without_memo_notes_the_receiver() {
    let tx = Transaction::new_coinbase("Alice".to_string(), String::new()).unwrap();
    assert_eq!(tx.get_ins()[0].get_pub_key(), b"Reward to 'Alice'".to_vec());
}

#[test]
fn id_is_the_hex_of_the_content_hash() {
    let mut tx = Transaction::new_coinbase("Alice".to_string(), "Bob".to_string()).unwrap();
    let digest = tx.hash().unwrap();
    assert_eq!(digest.len(), 32);
    assert_eq!(tx.get_id(), to_hex(&digest));
    assert_eq!(tx.get_id().len(), 64);
    let before = tx.get_id();
    tx.set_id().unwrap();
    assert_eq!(tx.get_id(), before);
    let same = Transaction::new_coinbase("Alice".to_string(), "Bob".to_string()).unwrap();
    assert_eq!(same.get_id(), before);
    let other = Transaction::new_coinbase("Alice".to_string(), "Carol".to_string()).unwrap();
    assert_ne!(other.get_id(), before);
}

#[test]
fn id_does_not_depend_on_the_old_id() {
    let input = TXInput::new("t".to_string(), 0, vec![1], vec![2]);
    let mut a = Transaction::from_parts("one".to_string(), vec![input.clone()], vec![]);
    let mut b = Transaction::from_parts("two".to_string(), vec![input], vec![]);
    a.set_id().unwrap();
    b.set_id().unwrap();
    assert_eq!(a.get_id(), b.get_id());
    assert_eq!(a.get_id().len(), 64);
}

#[test]
fn not_every_one_input_transaction_is_coinbase() {
    let named = Transaction::from_parts(
        String::new(),
        vec![TXInput::new("t".to_string(), -1, vec![], vec![])],
        vec![],
    );
    assert!(!named.is_coinbase());
    let indexed = Transaction::from_parts(
        String::new(),
        vec![TXInput::new(String::new(), 0, vec![], vec![])],
        vec![],
    );
    assert!(!indexed.is_coinbase());
    let two = Transaction::from_parts(
        String::new(),
        vec![
            TXInput::new(String::new(), -1, vec![], vec![]),
            TXInput::new(String::new(), -1, vec![], vec![]),
        ],
        vec![],
    );
    assert!(!two.is_coinbase());
    let none = Transaction::from_parts(String::new(), vec![], vec![]);
    assert!(!none.is_coinbase());
}

#[test]
fn trim_copy_blanks_signatures_and_keys() {
    let tx = Transaction::from_parts(
        "id".to_string(),
        vec![TXInput::new("t".to_string(), 3, vec![1, 2], vec![3, 4])],
        vec![TXOutput::new(5, "Alice".to_string())],
    );
    let copy = tx.trim_copy();
    assert_eq!(copy.get_id(), "id");
    let ins = copy.get_ins();
    assert_eq!(ins.len(), 1);
    assert_eq!(ins[0].get_txid(), "t");
    assert_eq!(ins[0].get_vout(), 3);
    assert!(ins[0].get_signature().is_empty());
    assert!(ins[0].get_pub_key().is_empty());
    assert_eq!(copy.get_outs()[0].get_value(), 5);
    assert_eq!(copy.hash(), tx.signing_message(7, &[]));
}

#[test]
fn signing_message_binds_the_spent_output_and_ignores_signatures() {
    let tx = Transaction::from_parts(
        "id".to_string(),
        vec![
            TXInput::new("t".to_string(), 0, vec![1, 2], vec![3, 4]),
            TXInput::new("u".to_string(), 1, vec![], vec![9]),
        ],
        vec![TXOutput::new(5, "Alice".to_string())],
    );
    let first = tx.signing_message(0, b"key").unwrap();
    assert_eq!(first.len(), 32);
    assert_ne!(tx.signing_message(1, b"key").unwrap(), first);
    assert_ne!(tx.signing_message(0, b"other").unwrap(), first);
    let resigned = Transaction::from_parts(
        "another".to_string(),
        vec![
            TXInput::new("t".to_string(), 0, vec![7, 7, 7], vec![]),
            TXInput::new("u".to_string(), 1, vec![8], vec![]),
        ],
        vec![TXOutput::new(5, "Alice".to_string())],
    );
    assert_eq!(resigned.signing_message(0, b"key").unwrap(), first);
}

#[test]
fn sign_then_verify_is_true() {
    let owner = wallet(3);
    let address = owner.get_address().unwrap();
    let prev = Transaction::new_coinbase(address.clone(), "m".to_string()).unwrap();
    let mut tx = spend(
        &owner,
        &prev,
        0,
        vec![TXOutput::new(60, "Bob".to_string()), TXOutput::new(40, address)],
    );
    let id = tx.get_id();
    assert_eq!(tx.sign(&owner.private_key, &vec![prev.clone()]), Ok(()));
    assert_eq!(tx.get_id(), id);
    assert_eq!(tx.get_ins()[0].get_signature().len(), 64);
    assert_eq!(tx.get_ins()[0].get_pub_key(), owner.public_key);
    assert_eq!(tx.verify(&vec![prev]), Ok(true));
}

#[test]
fn verify_is_false_for_changed_signature_or_other_key() {
    let owner = wallet(3);
    let other = wallet(4);
    let prev = Transaction::new_coinbase("Alice".to_string(), "m".to_string()).unwrap();
    let mut tx = spend(&owner, &prev, 0, vec![TXOutput::new(100, "Bob".to_string())]);
    tx.sign(&owner.private_key, &vec![prev.clone()]).unwrap();
    let signature = tx.get_ins()[0].get_signature();
    for at in 0..signature.len() {
        let mut changed = signature.clone();
        changed[at] ^= 0x80;
        let forged = Transaction::from_parts(
            tx.get_id(),
            vec![TXInput::new(prev.get_id(), 0, changed, owner.get_pub_key())],
            tx.get_outs(),
        );
        assert_eq!(forged.verify(&vec![prev.clone()]), Ok(false));
    }
    let substituted = Transaction::from_parts(
        tx.get_id(),
        vec![TXInput::new(prev.get_id(), 0, signature.clone(), other.get_pub_key())],
        tx.get_outs(),
    );
    assert_eq!(substituted.verify(&vec![prev.clone()]), Ok(false));
    let unsigned = spend(&owner, &prev, 0, vec![TXOutput::new(100, "Bob".to_string())]);
    assert_eq!(unsigned.verify(&vec![prev.clone()]), Ok(false));
    let mut by_other = spend(&owner, &prev, 0, vec![TXOutput::new(100, "Bob".to_string())]);
    by_other.sign(&other.private_key, &vec![prev.clone()]).unwrap();
    assert_eq!(by_other.verify(&vec![prev]), Ok(false));
}

#[test]
fn verify_is_false_for_changed_outputs() {
    let owner = wallet(3);
    let prev = Transaction::new_coinbase("Alice".to_string(), "m".to_string()).unwrap();
    let mut tx = spend(&owner, &prev, 0, vec![TXOutput::new(100, "Bob".to_string())]);
    tx.sign(&owner.private_key, &vec![prev.clone()]).unwrap();
    let redirected = Transaction::from_parts(
        tx.get_id(),
        tx.get_ins(),
        vec![TXOutput::new(100, "Mallory".to_string())],
    );
    assert_eq!(redirected.verify(&vec![prev]), Ok(false));
}

#[test]
fn verify_is_false_where_outputs_exceed_the_referenced_value() {
    let owner = wallet(3);
    let prev = Transaction::new_coinbase("Alice".to_string(), "m".to_string()).unwrap();
    let mut greedy = spend(&owner, &prev, 0, vec![TXOutput::new(101, "Bob".to_string())]);
    assert_eq!(greedy.sign(&owner.private_key, &vec![prev.clone()]), Ok(()));
    assert_eq!(greedy.verify(&vec![prev.clone()]), Ok(false));
    let mut exact = spend(&owner, &prev, 0, vec![TXOutput::new(100, "Bob".to_string())]);
    exact.sign(&owner.private_key, &vec![prev.clone()]).unwrap();
    assert_eq!(exact.verify(&vec![prev]), Ok(true));
}

#[test]
fn coinbase_verifies_whatever_its_signature() {
    let prev: Vec<Transaction> = vec![];
    let mut tx = Transaction::new_coinbase("Alice".to_string(), "m".to_string()).unwrap();
    assert_eq!(tx.verify(&prev), Ok(true));
    let before = tx.get_ins()[0].get_signature();
    assert_eq!(tx.sign(&[0u8; 3], &prev), Ok(()));
    assert_eq!(tx.get_ins()[0].get_signature(), before);
    let scribbled = Transaction::from_parts(
        "anything".to_string(),
        vec![TXInput::new(String::new(), -1, vec![1, 2, 3], vec![4, 5])],
        vec![TXOutput::new(1_000_000, "Alice".to_string())],
    );
    assert!(scribbled.is_coinbase());
    assert_eq!(scribbled.verify(&prev), Ok(true));
}

#[test]
fn sign_and_verify_need_the_referenced_transactions() {
    let owner = wallet(3);
    let prev = Transaction::new_coinbase("Alice".to_string(), "m".to_string()).unwrap();
    let other = Transaction::new_coinbase("Bob".to_string(), "m".to_string()).unwrap();
    let mut tx = spend(&owner, &prev, 0, vec![TXOutput::new(100, "Bob".to_string())]);
    assert_eq!(
        tx.sign(&owner.private_key, &vec![other.clone()]),
        Err(LedgerError::MissingReferencedTransaction)
    );
    assert!(tx.get_ins()[0].get_signature().is_empty());
    assert_eq!(tx.verify(&vec![]), Err(LedgerError::MissingReferencedTransaction));
    assert_eq!(tx.verify(&vec![other]), Err(LedgerError::MissingReferencedTransaction));
    let mut beyond = spend(&owner, &prev, 1, vec![]);
    assert_eq!(
        beyond.sign(&owner.private_key, &vec![prev.clone()]),
        Err(LedgerError::MissingReferencedTransaction)
    );
    assert_eq!(beyond.verify(&vec![prev.clone()]), Err(LedgerError::MissingReferencedTransaction));
    let negative = spend(&owner, &prev, -1, vec![]);
    assert_eq!(negative.verify(&vec![prev.clone()]), Err(LedgerError::MissingReferencedTransaction));
    assert!(negative.referenced_outputs(&vec![prev.clone()]).is_none());
    let found = tx.referenced_outputs(&vec![prev]).unwrap();
    assert_eq!(found.len(), 1);
    assert_eq!(found[0].get_value(), 100);
}

#[test]
fn sign_fails_with_an_invalid_key_and_changes_nothing() {
    let owner = wallet(3);
    let prev = Transaction::new_coinbase("Alice".to_string(), "m".to_string()).unwrap();
    let mut tx = spend(&owner, &prev, 0, vec![TXOutput::new(100, "Bob".to_string())]);
    assert_eq!(tx.sign(&[0u8; 32], &vec![prev.clone()]), Err(LedgerError::InvalidKey));
    assert_eq!(tx.sign(&[], &vec![prev]), Err(LedgerError::InvalidKey));
    assert!(tx.get_ins()[0].get_signature().is_empty());
}

#[test]
fn every_input_is_signed_for_the_output_that_it_spends() {
    let owner = wallet(5);
    let first = Transaction::new_coinbase("Alice".to_string(), "one".to_string()).unwrap();
    let second = Transaction::new_coinbase("Carol".to_string(), "two".to_string()).unwrap();
    let inputs = vec![
        TXInput::new(first.get_id(), 0, vec![], owner.get_pub_key()),
        TXInput::new(second.get_id(), 0, vec![], owner.get_pub_key()),
    ];
    let mut tx =
        Transaction::from_parts(String::new(), inputs, vec![TXOutput::new(200, "Bob".to_string())]);
    tx.set_id().unwrap();
    let prev = vec![first, second];
    tx.sign(&owner.private_key, &prev).unwrap();
    assert_eq!(tx.verify(&prev), Ok(true));
    let ins = tx.get_ins();
    assert_ne!(ins[0].get_signature(), ins[1].get_signature());
    let message = tx.signing_message(1, b"Carol").unwrap();
    assert!(Wallet::verify(&owner.public_key, &message, &ins[1].get_signature()));
    let swapped = Transaction::from_parts(
        tx.get_id(),
        vec![
            TXInput::new(ins[0].get_txid(), 0, ins[1].get_signature(), owner.get_pub_key()),
            TXInput::new(ins[1].get_txid(), 0, ins[0].get_signature(), owner.get_pub_key()),
        ],
        tx.get_outs(),
    );
    assert_eq!(swapped.verify(&prev), Ok(false));
}

#[test]
fn inputs_and_outputs_keep_what_they_are_given() {
    let mut input = TXInput::new("t".to_string(), 2, vec![1], vec![2]);
    input.set_signature(vec![9, 9]);
    input.set_pub_key(vec![8]);
    assert_eq!(input.get_signature(), vec![9, 9]);
    assert_eq!(input.get_pub_key(), vec![8]);
    assert_eq!(input.get_txid(), "t");
    assert_eq!(input.get_vout(), 2);
    let back = TXInput::from_fields(&input.fields());
    assert_eq!(back.get_signature(), vec![9, 9]);
    assert_eq!(back.get_txid(), "t");
    let output = TXOutput { value: 3, pub_key_hash: vec![0xff, 0xfe] };
    assert_eq!(output.get_script_pub_key(), None);
    assert!(!output.can_be_unlocked_with("x".to_string()));
    assert_eq!(TXOutput::from_fields(&output.fields()).pub_key_hash, vec![0xff, 0xfe]);
    assert_eq!(total_value(&vec![output, TXOutput::new(u64::MAX, "a".to_string())]), 3 + u64::MAX as u128);
    assert_eq!(total_value(&vec![]), 0);
}

#[test]
fn input_is_unlocked_by_the_address_of_its_key() {
    let owner = wallet(3);
    let other = wallet(4);
    let input = TXInput::new("t".to_string(), 0, vec![], owner.get_pub_key());
    assert!(input.can_be_unlocked_with(owner.get_address().unwrap()));
    assert!(!input.can_be_unlocked_with(other.get_address().unwrap()));
    let memo = TXInput::new(String::new(), -1, vec![], b"Alice".to_vec());
    assert!(!memo.can_be_unlocked_with("Alice".to_string()));
}

#[test]
fn transaction_record_round_trip() {
    let owner = wallet(3);
    let prev = Transaction::new_coinbase("Alice".to_string(), "m".to_string()).unwrap();
    let mut tx = spend(&owner, &prev, 0, vec![TXOutput::new(100, "Bob".to_string())]);
    tx.sign(&owner.private_key, &vec![prev.clone()]).unwrap();
    let back = Transaction::from_fields(&tx.fields());
    assert_eq!(back.get_id(), tx.get_id());
    assert_eq!(back.verify(&vec![prev]), Ok(true));
    assert_eq!(back.ins().len(), 1);
    assert_eq!(back.outs()[0].get_value(), 100);
}
