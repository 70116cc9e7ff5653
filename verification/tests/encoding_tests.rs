use rustychain::block::Block;
use rustychain::hex::to_hex;
use rustychain::transaction::Transaction;
use rustychain::tx::TXInput;
use rustychain::tx::TXOutput;
use sha2::Digest;
use sha2::Sha256;

fn sample() -> Transaction {
    let mut tx = Transaction::from_parts(
        "stale".to_string(),
        vec![TXInput::new("t".to_string(), 2, vec![1, 2], vec![3])],
        vec![TXOutput::new(9, "Alice".to_string()), TXOutput::new(1, "Bob".to_string())],
    );
    tx.set_id().unwrap();
    tx
}

#[test]
fn transaction_id_is_sha256_of_the_encoding_with_a_blank_id() {
    let tx = sample();
    let fields = tx.fields();
    let bytes = bincode::serialize(&(String::new(), &fields.1, &fields.2)).unwrap();
    let digest = Sha256::digest(&bytes).to_vec();
    assert_eq!(tx.hash(), Some(digest.clone()));
    assert_eq!(tx.get_id(), to_hex(&digest));
}

#[test]
fn transaction_encoding_is_field_after_field() {
    let tx = Transaction::from_parts(
        String::new(),
        vec![TXInput::new("t".to_string(), -1, vec![7], vec![])],
        vec![TXOutput { value: 258, pub_key_hash: vec![9, 8] }],
    );
    let mut expected: Vec<u8> = vec![];
    expected.extend(0u64.to_le_bytes());
    expected.extend(1u64.to_le_bytes());
    expected.extend(1u64.to_le_bytes());
    expected.push(b't');
    expected.extend((-1i64).to_le_bytes());
    expected.extend(1u64.to_le_bytes());
    expected.push(7);
    expected.extend(0u64.to_le_bytes());
    expected.extend(1u64.to_le_bytes());
    expected.extend(258u64.to_le_bytes());
    expected.extend(2u64.to_le_bytes());
    expected.extend([9u8, 8]);
    assert_eq!(tx.hash(), Some(Sha256::digest(&expected).to_vec()));
}

#[test]
fn block_hash_is_sha256_of_what_it_covers() {
    let block = Block::seal(vec![sample()], "prev".to_string(), 3, 77, 1, i32::MAX).unwrap();
    let fields = vec![sample().fields()];
    let bytes =
        bincode::serialize(&("prev".to_string(), &fields, 77u128, 1usize, block.get_nonce())).unwrap();
    assert_eq!(block.prepare_hash(1), Some(bytes.clone()));
    assert_eq!(block.get_hash(), to_hex(&Sha256::digest(&bytes)));
    assert_ne!(block.prepare_hash(2), Some(bytes));
}

#[test]
fn block_is_stamped_with_the_current_time() {
    let before = std::time::SystemTime::now()
        .duration_since(std::time::UNIX_EPOCH)
        .unwrap()
        .as_millis();
    let block = Block::new(vec![], "p".to_string(), 1).unwrap();
    let after = std::time::SystemTime::now()
        .duration_since(std::time::UNIX_EPOCH)
        .unwrap()
        .as_millis();
    assert!(before <= block.get_timestamp());
    assert!(block.get_timestamp() <= after);
}
