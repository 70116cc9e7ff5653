use rustychain::block::Block;
use rustychain::block::TARGET_HEXT;
use rustychain::errors::LedgerError;
use rustychain::transaction::Transaction;

fn coinbase(to: &str, memo: &str) -> Transaction {
    Transaction::new_coinbase(to.to_string(), memo.to_string()).unwrap()
}

#[test]
fn test_block() {
    let block = Block::new(vec![coinbase("Hello", "")], "0".to_string(), 0).unwrap();
    assert_eq!(block.get_transactions().len(), 1);
    assert_eq!(block.get_prev_hash(), "0");
    assert_eq!(block.get_height(), 0);
    assert!(block.get_hash().starts_with("0000"));
    assert_eq!(block.validate(TARGET_HEXT), Ok(true));
}

#[test]
fn seal_finds_leading_zeros_and_hash_is_reproducible() {
    for difficulty in 0..4usize {
        let block = Block::seal(
            vec![coinbase("Alice", "memo")],
            "prev".to_string(),
            7,
            1_700_000_000_000,
            difficulty,
            i32::MAX,
        )
        .unwrap();
        let hash = block.get_hash();
        assert_eq!(hash.len(), 64);
        assert!(hash.chars().take(difficulty).all(|c| c == '0'));
        assert_eq!(block.validate(difficulty), Ok(true));
        assert_eq!(block.audit_seal(difficulty), Ok(true));
        assert_eq!(block.get_height(), 7);
        assert_eq!(block.get_prev_hash(), "prev");
        assert_eq!(block.get_timestamp(), 1_700_000_000_000);
        assert!(block.get_nonce() >= 0);
    }
}

#[test]
fn seal_is_deterministic_for_fixed_timestamp() {
    let a = Block::seal(vec![coinbase("Alice", "m")], "p".to_string(), 1, 42, 2, i32::MAX).unwrap();
    let b = Block::seal(vec![coinbase("Alice", "m")], "p".to_string(), 1, 42, 2, i32::MAX).unwrap();
    assert_eq!(a.get_nonce(), b.get_nonce());
    assert_eq!(a.get_hash(), b.get_hash());
}

#[test]
fn seal_takes_the_first_nonce() {
    let sealed = Block::seal(vec![coinbase("Alice", "m")], "p".to_string(), 1, 42, 2, i32::MAX).unwrap();
    for nonce in 0..sealed.get_nonce() {
        let earlier = Block::from_parts(
            42,
            vec![coinbase("Alice", "m")],
            "p".to_string(),
            sealed.get_hash(),
            1,
            nonce,
        );
        assert_eq!(earlier.validate(2), Ok(false));
    }
}

#[test]
fn seal_with_difficulty_zero_takes_nonce_zero() {
    let block = Block::seal(vec![], "p".to_string(), 0, 1, 0, i32::MAX).unwrap();
    assert_eq!(block.get_nonce(), 0);
}

#[test]
fn seal_gives_up_when_nonces_are_exhausted() {
    let made = Block::seal(vec![coinbase("Alice", "m")], "p".to_string(), 1, 42, 65, 5);
    assert_eq!(made.err(), Some(LedgerError::NonceExhausted));
    let none = Block::seal(vec![coinbase("Alice", "m")], "p".to_string(), 1, 42, 0, -1);
    assert_eq!(none.err(), Some(LedgerError::NonceExhausted));
}

#[test]
fn validate_tests_the_recomputed_hash_alone() {
    let sealed = Block::seal(vec![coinbase("Alice", "m")], "p".to_string(), 1, 42, 2, i32::MAX).unwrap();
    let other_hash = Block::from_parts(
        42,
        vec![coinbase("Alice", "m")],
        "p".to_string(),
        "another text".to_string(),
        1,
        sealed.get_nonce(),
    );
    assert_eq!(other_hash.validate(2), Ok(true));
    assert_eq!(other_hash.audit_seal(2), Ok(false));
    assert_eq!(sealed.validate(2), Ok(true));
    assert_eq!(sealed.validate(0), Ok(true));
    assert_eq!(sealed.validate(65), Ok(false));
    let hash = sealed.get_hash();
    let zeros = hash.chars().take_while(|c| *c == '0').count();
    assert_eq!(sealed.validate(zeros), Ok(true));
    assert_eq!(sealed.validate(zeros + 1), Ok(false));
}

#[test]
fn audit_rejects_a_changed_block() {
    let sealed = Block::seal(vec![coinbase("Alice", "m")], "p".to_string(), 1, 42, 2, i32::MAX).unwrap();
    let other_nonce = Block::from_parts(
        42,
        vec![coinbase("Alice", "m")],
        "p".to_string(),
        sealed.get_hash(),
        1,
        sealed.get_nonce() + 1,
    );
    assert_eq!(other_nonce.audit_seal(2), Ok(false));
    let other_content = Block::from_parts(
        42,
        vec![coinbase("Mallory", "m")],
        "p".to_string(),
        sealed.get_hash(),
        1,
        sealed.get_nonce(),
    );
    assert_eq!(other_content.audit_seal(2), Ok(false));
    let same = Block::from_parts(
        42,
        vec![coinbase("Alice", "m")],
        "p".to_string(),
        sealed.get_hash(),
        1,
        sealed.get_nonce(),
    );
    assert_eq!(same.audit_seal(2), Ok(true));
    assert_eq!(same.audit_seal(65), Ok(false));
}

#[test]
fn block_record_round_trip() {
    let sealed = Block::seal(vec![coinbase("Alice", "m")], "p".to_string(), 3, 42, 1, i32::MAX).unwrap();
    let back = Block::from_fields(&sealed.fields());
    assert_eq!(back.get_hash(), sealed.get_hash());
    assert_eq!(back.get_prev_hash(), sealed.get_prev_hash());
    assert_eq!(back.get_nonce(), sealed.get_nonce());
    assert_eq!(back.get_height(), 3);
    assert_eq!(back.get_timestamp(), 42);
    assert_eq!(back.get_transactions().len(), 1);
    assert_eq!(back.get_transactions()[0].get_id(), sealed.get_transactions()[0].get_id());
    assert_eq!(back.validate(1), Ok(true));
}
