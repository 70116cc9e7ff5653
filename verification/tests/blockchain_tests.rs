use rustychain::block::Block;
use rustychain::block::TARGET_HEXT;
use rustychain::blockchain::Blockchain;
use rustychain::blockchain::GENESIS_COINBASE;
use rustychain::blockchain::GENESIS_HEIGHT;
use rustychain::blockchain::GENESIS_PREV_HASH;
use rustychain::blockchain::StoreWrite;
use rustychain::errors::LedgerError;
use rustychain::transaction::Transaction;
use rustychain::tx::TXInput;
use rustychain::tx::TXOutput;
use rustychain::utxo::chain_transactions;
use rustychain::utxo::point_total;
use rustychain::utxo::select_outputs;
use rustychain::utxo::unspent_outputs;
use rustychain::utxo::unspent_transactions;
use rustychain::utxo::OutPoint;
use rustychain::wallet::Wallet;
use rustychain::wallet::Wallets;

fn seed(last: u8) -> Vec<u8> {
    let mut bytes = vec![0u8; 32];
    bytes[31] = last;
    bytes
}

fn book_of(seeds: &[u8]) -> (Wallets, Vec<String>, Vec<Wallet>) {
    let mut book = Wallets::new();
    let mut addresses = vec![];
    let mut wallets = vec![];
    for s in seeds {
        let wallet = Wallet::from_seed(&seed(*s)).unwrap();
        let address = wallet.get_address().unwrap();
        book.insert(address.clone(), wallet.clone());
        addresses.push(address);
        wallets.push(wallet);
    }
    (book, addresses, wallets)
}

fn entries(chain: &Blockchain) -> Vec<(String, Vec<u8>)> {
    (0..chain.len()).map(|i| chain.entry(i).unwrap()).collect()
}

#[test]
fn test_blockchain() {
    let made = Blockchain::create_blockchain("Alice".to_string()).unwrap();
    let mut bc = Blockchain::new(Some(made.get_tip().into_bytes()), entries(&made)).unwrap();
    let mut tx = Transaction::new_coinbase("Alice".to_string(), "Bob".to_string()).unwrap();
    bc.add_block(vec![tx]).unwrap();
    tx = Transaction::new_coinbase("Bob".to_string(), "Alice".to_string()).unwrap();
    bc.add_block(vec![tx]).unwrap();

    let mut iter = bc.iter();
    let block = iter.next().unwrap().unwrap();

    let mut txs = block.get_transactions();
    assert_eq!(txs.len(), 1);

    let block = iter.next().unwrap().unwrap();

    txs = block.get_transactions();
    assert_eq!(txs.len(), 1);
}

#[test]
fn new_chain_holds_one_sealed_block_that_pays_the_subsidy() {
    let chain = Blockchain::create_blockchain_at("Alice".to_string(), 1_700_000_000_000).unwrap();
    assert_eq!(chain.len(), 1);
    let blocks = chain.blocks().unwrap();
    assert_eq!(blocks.len(), 1);
    let genesis = &blocks[0];
    assert_eq!(genesis.get_hash(), chain.get_tip());
    assert_eq!(genesis.get_prev_hash(), GENESIS_PREV_HASH);
    assert_eq!(genesis.get_prev_hash(), "GENESIS ARRIVED");
    assert_eq!(genesis.get_height(), GENESIS_HEIGHT);
    assert_eq!(genesis.get_timestamp(), 1_700_000_000_000);
    assert!(genesis.get_hash().starts_with("0000"));
    assert_eq!(genesis.validate(TARGET_HEXT), Ok(true));
    assert_eq!(genesis.audit_seal(TARGET_HEXT), Ok(true));
    let txs = genesis.get_transactions();
    assert_eq!(txs.len(), 1);
    assert!(txs[0].is_coinbase());
    assert_eq!(txs[0].get_ins()[0].get_pub_key(), GENESIS_COINBASE.as_bytes().to_vec());
    assert_eq!(chain.entry(0).unwrap().0, chain.get_tip());
    assert_eq!(chain.get(&chain.get_tip()), Some(chain.entry(0).unwrap().1));
    assert_eq!(chain.get("absent"), None);
    assert_eq!(chain.balance("Alice"), Ok(100));
    assert_eq!(chain.balance("Bob"), Ok(0));
    assert_eq!(chain.audit(), Ok(true));
}

#[test]
fn walk_follows_predecessors_from_tip_to_first_block() {
    let mut chain = Blockchain::create_blockchain_at("Alice".to_string(), 1).unwrap();
    for (i, who) in ["Bob", "Carol", "Dave"].iter().enumerate() {
        let tx = Transaction::new_coinbase(who.to_string(), String::new()).unwrap();
        chain.add_block_at(vec![tx], 2 + i as u128).unwrap();
    }
    let blocks = chain.blocks().unwrap();
    assert_eq!(blocks.len(), 4);
    assert_eq!(blocks[0].get_hash(), chain.get_tip());
    for i in 0..3 {
        assert_eq!(blocks[i].get_prev_hash(), blocks[i + 1].get_hash());
        assert_eq!(blocks[i].get_height(), blocks[i + 1].get_height() + 1);
    }
    assert_eq!(blocks[3].get_prev_hash(), GENESIS_PREV_HASH);
    assert_eq!(blocks[3].get_height(), GENESIS_HEIGHT);
    assert_eq!(blocks[0].get_timestamp(), 4);
    let mut walk = chain.iter();
    for block in &blocks {
        assert_eq!(walk.next().unwrap().unwrap().get_hash(), block.get_hash());
    }
    assert!(walk.next().is_none());
    assert!(walk.next().is_none());
    assert_eq!(chain.audit(), Ok(true));
    let txs = chain.transactions().unwrap();
    assert_eq!(txs.len(), 4);
    assert_eq!(txs[0].get_outs()[0].get_script_pub_key(), Some("Dave".to_string()));
    assert_eq!(txs[3].get_outs()[0].get_script_pub_key(), Some("Alice".to_string()));
    assert_eq!(chain_transactions(&blocks).len(), 4);
}

#[test]
fn broken_link_surfaces_storage_corruption() {
    let mut chain = Blockchain::create_blockchain_at("Alice".to_string(), 1).unwrap();
    let tx = Transaction::new_coinbase("Bob".to_string(), String::new()).unwrap();
    chain.add_block_at(vec![tx], 2).unwrap();
    let all = entries(&chain);
    let genesis_key = all[0].0.clone();
    let without_genesis: Vec<(String, Vec<u8>)> = all[1..].to_vec();
    let broken = Blockchain::new(Some(chain.get_tip().into_bytes()), without_genesis).unwrap();
    assert_eq!(broken.blocks().err(), Some(LedgerError::StorageCorruption));
    assert_eq!(broken.transactions().err(), Some(LedgerError::StorageCorruption));
    assert_eq!(broken.balance("Alice"), Err(LedgerError::StorageCorruption));
    assert_eq!(broken.find_UTX0("Alice").err(), Some(LedgerError::StorageCorruption));
    assert_eq!(
        broken.find_spendable_outputs("Alice", 1).err(),
        Some(LedgerError::StorageCorruption)
    );
    assert_eq!(
        broken.find_unspent_transactions("Alice").err(),
        Some(LedgerError::StorageCorruption)
    );
    assert_eq!(broken.audit(), Err(LedgerError::StorageCorruption));
    let mut walk = broken.iter();
    assert!(walk.next().unwrap().is_ok());
    assert_eq!(walk.next().unwrap().err(), Some(LedgerError::StorageCorruption));
    assert!(walk.next().is_none());

    let mut garbled = all.clone();
    garbled[0].1 = vec![1, 2, 3];
    let chain2 = Blockchain::new(Some(chain.get_tip().into_bytes()), garbled).unwrap();
    assert_eq!(chain2.blocks().err(), Some(LedgerError::StorageCorruption));
    assert!(chain2.block_at(&genesis_key).is_none());

    let mut swapped = all.clone();
    swapped[0].1 = all[1].1.clone();
    let chain3 = Blockchain::new(Some(chain.get_tip().into_bytes()), swapped).unwrap();
    assert_eq!(chain3.blocks().err(), Some(LedgerError::StorageCorruption));
}

#[test]
fn absent_tip_pointer_is_storage_corruption() {
    let chain = Blockchain::create_blockchain_at("Alice".to_string(), 1).unwrap();
    assert_eq!(
        Blockchain::new(None, entries(&chain)).err(),
        Some(LedgerError::StorageCorruption)
    );
    assert_eq!(Blockchain::new(None, vec![]).err(), Some(LedgerError::StorageCorruption));
    assert_eq!(
        Blockchain::new(Some(vec![0xff, 0xfe]), entries(&chain)).err(),
        Some(LedgerError::StorageCorruption)
    );
}

#[test]
fn chain_opens_on_any_tip_and_the_walk_reports_a_missing_block() {
    let chain = Blockchain::create_blockchain_at("Alice".to_string(), 1).unwrap();
    let mut opened = Blockchain::new(Some(b"absent".to_vec()), entries(&chain)).unwrap();
    assert_eq!(opened.get_tip(), "absent");
    assert_eq!(entries(&opened), entries(&chain));
    assert_eq!(opened.blocks().err(), Some(LedgerError::StorageCorruption));
    assert_eq!(opened.iter().next().unwrap().err(), Some(LedgerError::StorageCorruption));
    assert_eq!(opened.add_block_at(vec![], 2), Err(LedgerError::StorageCorruption));
    assert_eq!(opened.get_tip(), "absent");
    let empty = Blockchain::new(Some(chain.get_tip().into_bytes()), vec![]).unwrap();
    assert_eq!(empty.get_tip(), chain.get_tip());
    assert_eq!(empty.len(), 0);
    assert_eq!(empty.blocks().err(), Some(LedgerError::StorageCorruption));
    let same = Blockchain::new(Some(chain.get_tip().into_bytes()), entries(&chain)).unwrap();
    assert_eq!(same.blocks().unwrap().len(), 1);
    let at_sentinel = Blockchain::new(Some(GENESIS_PREV_HASH.as_bytes().to_vec()), vec![]).unwrap();
    assert_eq!(at_sentinel.blocks().unwrap().len(), 0);
}

#[test]
fn blocks_are_read_one_by_one_from_the_tip() {
    let mut chain = Blockchain::create_blockchain_at("Alice".to_string(), 1).unwrap();
    for i in 0..2 {
        let tx = Transaction::new_coinbase("Bob".to_string(), format!("{}", i)).unwrap();
        chain.add_block_at(vec![tx], 2 + i as u128).unwrap();
    }
    assert_eq!(chain.wanted(), None);
    let disk = entries(&chain);
    let expected: Vec<String> = chain.blocks().unwrap().iter().map(|b| b.get_hash()).collect();
    let mut opened = Blockchain::new(Some(chain.get_tip().into_bytes()), vec![]).unwrap();
    let mut asked = vec![];
    while let Some(hash) = opened.wanted() {
        asked.push(hash.clone());
        let bytes = disk.iter().find(|e| e.0 == hash).unwrap().1.clone();
        opened.supply(hash, bytes);
    }
    assert_eq!(asked, expected);
    assert_eq!(opened.blocks().unwrap().len(), 3);
    assert_eq!(opened.balance("Alice"), Ok(100));
    assert_eq!(opened.balance("Bob"), Ok(200));
    let before = entries(&opened);
    opened.supply(asked[0].clone(), vec![1, 2, 3]);
    assert_eq!(entries(&opened), before);
    let mut broken = Blockchain::new(Some(chain.get_tip().into_bytes()), vec![]).unwrap();
    broken.supply(chain.get_tip(), vec![1, 2, 3]);
    assert_eq!(broken.wanted(), None);
    assert_eq!(broken.blocks().err(), Some(LedgerError::StorageCorruption));
}

#[test]
fn circular_links_are_storage_corruption() {
    let a = Block::from_parts(1, vec![], "b".to_string(), "a".to_string(), 0, 0);
    let b = Block::from_parts(1, vec![], "a".to_string(), "b".to_string(), 1, 0);
    let store = vec![
        ("a".to_string(), bincode::serialize(&a.fields()).unwrap()),
        ("b".to_string(), bincode::serialize(&b.fields()).unwrap()),
    ];
    let chain = Blockchain::new(Some(b"a".to_vec()), store).unwrap();
    assert_eq!(chain.blocks().err(), Some(LedgerError::StorageCorruption));
    assert_eq!(chain.block_at("a").unwrap().get_prev_hash(), "b");
}

#[test]
fn audit_finds_an_unsealed_block() {
    let forged = Block::from_parts(1, vec![], GENESIS_PREV_HASH.to_string(), "a".to_string(), 0, 0);
    let store = vec![("a".to_string(), bincode::serialize(&forged.fields()).unwrap())];
    let chain = Blockchain::new(Some(b"a".to_vec()), store).unwrap();
    assert_eq!(chain.blocks().unwrap().len(), 1);
    assert_eq!(chain.audit(), Ok(false));
}

#[test]
fn stored_block_bytes_are_its_canonical_encoding() {
    let chain = Blockchain::create_blockchain_at("Alice".to_string(), 1).unwrap();
    let block = chain.block_at(&chain.get_tip()).unwrap();
    assert_eq!(chain.entry(0).unwrap().1, bincode::serialize(&block.fields()).unwrap());
}

#[test]
fn end_to_end_transfer() {
    let (book, addresses, wallets) = book_of(&[11, 12]);
    let (a, b) = (addresses[0].clone(), addresses[1].clone());
    let mut chain = Blockchain::create_blockchain_at(a.clone(), 1).unwrap();
    assert_eq!(chain.balance(&a), Ok(100));
    assert_eq!(chain.balance(&b), Ok(0));

    let mut tx = Transaction::new_utxo(&a, &b, 30, &chain, &book).unwrap();
    let prev = chain.transactions().unwrap();
    assert_eq!(tx.sign(&wallets[0].private_key, &prev), Ok(()));
    assert_eq!(tx.verify(&prev), Ok(true));
    let ins = tx.get_ins();
    assert_eq!(ins.len(), 1);
    assert_eq!(ins[0].get_txid(), prev[0].get_id());
    assert_eq!(ins[0].get_vout(), 0);
    assert_eq!(ins[0].get_pub_key(), wallets[0].public_key);
    let outs = tx.get_outs();
    assert_eq!(outs.len(), 2);
    assert_eq!(outs[0].get_value(), 30);
    assert_eq!(outs[0].get_script_pub_key(), Some(b.clone()));
    assert_eq!(outs[1].get_value(), 70);
    assert_eq!(outs[1].get_script_pub_key(), Some(a.clone()));

    let old_tip = chain.get_tip();
    assert_eq!(chain.add_block_at(vec![tx], 2), Ok(()));
    assert_ne!(chain.get_tip(), old_tip);
    assert_eq!(chain.len(), 2);
    assert_eq!(chain.blocks().unwrap().len(), 2);
    assert_eq!(chain.balance(&a), Ok(70));
    assert_eq!(chain.balance(&b), Ok(30));

    let tip = chain.get_tip();
    let store = entries(&chain);
    assert_eq!(
        Transaction::new_utxo(&a, &b, 71, &chain, &book).err(),
        Some(LedgerError::InsufficientFunds)
    );
    assert_eq!(
        Transaction::new_utxo(&b, &a, 31, &chain, &book).err(),
        Some(LedgerError::InsufficientFunds)
    );
    assert_eq!(chain.get_tip(), tip);
    assert_eq!(entries(&chain), store);

    let back = Transaction::new_utxo(&b, &a, 30, &chain, &book).unwrap();
    assert_eq!(back.get_outs().len(), 1);
    chain.add_block_at(vec![back], 3).unwrap();
    assert_eq!(chain.balance(&a), Ok(100));
    assert_eq!(chain.balance(&b), Ok(0));
    assert_eq!(chain.audit(), Ok(true));
}

#[test]
fn transfer_needs_known_addresses() {
    let (book, addresses, _) = book_of(&[11]);
    let a = addresses[0].clone();
    let chain = Blockchain::create_blockchain_at(a.clone(), 1).unwrap();
    assert_eq!(
        Transaction::new_utxo(&a, "stranger", 1, &chain, &book).err(),
        Some(LedgerError::UnknownAddress)
    );
    assert_eq!(
        Transaction::new_utxo("stranger", &a, 1, &chain, &book).err(),
        Some(LedgerError::UnknownAddress)
    );
    assert_eq!(
        Transaction::new_utxo("stranger", &a, 1000, &chain, &book).err(),
        Some(LedgerError::UnknownAddress)
    );
}

#[test]
fn transfer_over_a_broken_chain_is_storage_corruption() {
    let (book, addresses, _) = book_of(&[11, 12]);
    let mut chain = Blockchain::create_blockchain_at(addresses[0].clone(), 1).unwrap();
    let tx = Transaction::new_coinbase("Bob".to_string(), String::new()).unwrap();
    chain.add_block_at(vec![tx], 2).unwrap();
    let broken = Blockchain::new(Some(chain.get_tip().into_bytes()), entries(&chain)[1..].to_vec()).unwrap();
    assert_eq!(
        Transaction::new_utxo(&addresses[0], &addresses[1], 1, &broken, &book).err(),
        Some(LedgerError::StorageCorruption)
    );
}

#[test]
fn exact_amount_makes_no_change_output() {
    let (book, addresses, _) = book_of(&[11, 12]);
    let chain = Blockchain::create_blockchain_at(addresses[0].clone(), 1).unwrap();
    let tx = Transaction::new_utxo(&addresses[0], &addresses[1], 100, &chain, &book).unwrap();
    let outs = tx.get_outs();
    assert_eq!(outs.len(), 1);
    assert_eq!(outs[0].get_value(), 100);
    let none = Transaction::new_utxo(&addresses[0], &addresses[1], 0, &chain, &book).unwrap();
    assert!(none.get_ins().is_empty());
    assert_eq!(none.get_outs().len(), 1);
}

#[test]
fn spendable_outputs_are_taken_newest_first_until_the_amount_is_reached() {
    let (_, addresses, wallets) = book_of(&[11]);
    let a = addresses[0].clone();
    let mut chain = Blockchain::create_blockchain_at(a.clone(), 1).unwrap();
    for i in 0..3 {
        let tx = Transaction::new_coinbase(a.clone(), format!("block {}", i)).unwrap();
        chain.add_block_at(vec![tx], 2 + i as u128).unwrap();
    }
    let txs = chain.transactions().unwrap();
    let all = chain.find_UTX0(&a).unwrap();
    assert_eq!(all.len(), 4);
    for (point, tx) in all.iter().zip(txs.iter()) {
        assert_eq!(point.txid, tx.get_id());
        assert_eq!(point.vout, 0);
        assert_eq!(point.value, 100);
    }
    assert_eq!(chain.balance(&a), Ok(400));
    let (sum, taken) = chain.find_spendable_outputs(&a, 150).unwrap();
    assert_eq!(sum, 200);
    assert_eq!(taken.len(), 2);
    assert_eq!(taken[0].txid, txs[0].get_id());
    assert_eq!(taken[1].txid, txs[1].get_id());
    let (sum, taken) = chain.find_spendable_outputs(&a, 100).unwrap();
    assert_eq!((sum, taken.len()), (100, 1));
    let (sum, taken) = chain.find_spendable_outputs(&a, 0).unwrap();
    assert_eq!((sum, taken.len()), (0, 0));
    let (sum, taken) = chain.find_spendable_outputs(&a, 400).unwrap();
    assert_eq!((sum, taken.len()), (400, 4));
    let (sum, taken) = chain.find_spendable_outputs(&a, 401).unwrap();
    assert_eq!((sum, taken.len()), (400, 4));
    assert_eq!(chain.find_unspent_transactions(&a).unwrap().len(), 4);
    assert_eq!(chain.find_unspent_transactions("nobody").unwrap().len(), 0);

    let spend = TXInput::new(txs[1].get_id(), 0, vec![], wallets[0].get_pub_key());
    let mut tx = Transaction::from_parts(
        String::new(),
        vec![spend],
        vec![TXOutput::new(100, "Bob".to_string())],
    );
    tx.set_id().unwrap();
    chain.add_block_at(vec![tx], 9).unwrap();
    let left = chain.find_UTX0(&a).unwrap();
    assert_eq!(left.len(), 3);
    assert!(left.iter().all(|p| p.txid != txs[1].get_id()));
    let (sum, taken) = chain.find_spendable_outputs(&a, 300).unwrap();
    assert_eq!(sum, 300);
    assert!(taken.iter().all(|p| p.txid != txs[1].get_id()));
    assert_eq!(chain.balance(&a), Ok(300));
    assert_eq!(chain.balance("Bob"), Ok(100));
    let holders = chain.find_unspent_transactions(&a).unwrap();
    assert_eq!(holders.len(), 3);
    assert!(holders.iter().all(|t| t.get_id() != txs[1].get_id()));
}

#[test]
fn an_input_of_another_owner_spends_nothing() {
    let (_, addresses, wallets) = book_of(&[11, 12]);
    let a = addresses[0].clone();
    let genesis = Transaction::new_coinbase(a.clone(), "g".to_string()).unwrap();
    let theft = TXInput::new(genesis.get_id(), 0, vec![], wallets[1].get_pub_key());
    let mut tx =
        Transaction::from_parts(String::new(), vec![theft], vec![TXOutput::new(100, "Bob".to_string())]);
    tx.set_id().unwrap();
    let txs = vec![tx, genesis];
    let points = unspent_outputs(&txs, &a);
    assert_eq!(points.len(), 1);
    assert_eq!(point_total(&points), 100);
    assert_eq!(unspent_transactions(&txs, &a).len(), 1);
    assert_eq!(unspent_outputs(&txs, &addresses[1]).len(), 0);
}

#[test]
fn only_earlier_visited_transactions_spend() {
    let (_, addresses, wallets) = book_of(&[11]);
    let a = addresses[0].clone();
    let genesis = Transaction::new_coinbase(a.clone(), "g".to_string()).unwrap();
    let input = TXInput::new(genesis.get_id(), 0, vec![], wallets[0].get_pub_key());
    let mut tx = Transaction::from_parts(
        String::new(),
        vec![input],
        vec![TXOutput::new(40, "Bob".to_string()), TXOutput::new(60, a.clone())],
    );
    tx.set_id().unwrap();
    let newest_first = vec![tx.clone(), genesis.clone()];
    let points = unspent_outputs(&newest_first, &a);
    assert_eq!(points.len(), 1);
    assert_eq!(points[0].txid, tx.get_id());
    assert_eq!(points[0].vout, 1);
    assert_eq!(points[0].value, 60);
    let oldest_first = vec![genesis.clone(), tx];
    let points = unspent_outputs(&oldest_first, &a);
    assert_eq!(points.len(), 2);
    assert_eq!(points[0].txid, genesis.get_id());
}

#[test]
fn selection_stops_at_the_first_sufficient_sum() {
    let points: Vec<OutPoint> = [5u64, 0, 7, 3]
        .iter()
        .enumerate()
        .map(|(i, v)| OutPoint { txid: format!("t{}", i), vout: i as i64, value: *v })
        .collect();
    let (sum, taken) = select_outputs(&points, 5);
    assert_eq!((sum, taken.len()), (5, 1));
    let (sum, taken) = select_outputs(&points, 6);
    assert_eq!((sum, taken.len()), (12, 3));
    assert_eq!(taken[2].txid, "t2");
    let (sum, taken) = select_outputs(&points, 16);
    assert_eq!((sum, taken.len()), (15, 4));
    let (sum, taken) = select_outputs(&points, 0);
    assert_eq!((sum, taken.len()), (0, 0));
    let big: Vec<OutPoint> =
        (0..3).map(|i| OutPoint { txid: String::new(), vout: i, value: u64::MAX }).collect();
    let (sum, taken) = select_outputs(&big, u64::MAX);
    assert_eq!((sum, taken.len()), (u64::MAX as u128, 1));
    assert_eq!(point_total(&big), 3 * (u64::MAX as u128));
    let (sum, taken) = select_outputs(&[OutPoint { txid: String::new(), vout: 0, value: 1 }, big[0].clone()].to_vec(), u64::MAX);
    assert_eq!((sum, taken.len()), (u64::MAX as u128 + 1, 2));
}

#[test]
fn failed_append_leaves_the_chain_as_it_is() {
    let chain = Blockchain::create_blockchain_at("Alice".to_string(), 1).unwrap();
    let forged = Block::from_parts(
        1,
        vec![],
        GENESIS_PREV_HASH.to_string(),
        "a".to_string(),
        usize::MAX,
        0,
    );
    let store = vec![("a".to_string(), bincode::serialize(&forged.fields()).unwrap())];
    let mut top = Blockchain::new(Some(b"a".to_vec()), store.clone()).unwrap();
    assert_eq!(top.add_block_at(vec![], 5), Err(LedgerError::StorageCorruption));
    assert_eq!(top.get_tip(), "a");
    assert_eq!(entries(&top), store);
    assert_eq!(chain.len(), 1);
}

#[test]
fn newest_block_is_written_before_the_tip() {
    let mut chain = Blockchain::create_blockchain_at("Alice".to_string(), 1).unwrap();
    let tx = Transaction::new_coinbase("Bob".to_string(), String::new()).unwrap();
    chain.add_block_at(vec![tx], 2).unwrap();
    let plan = chain.tip_writes().unwrap();
    assert_eq!(plan.len(), 4);
    let tip = chain.get_tip();
    let stored = chain.get(&tip).unwrap();
    match &plan[0] {
        StoreWrite::PutBlock { hash, bytes } => {
            assert_eq!(hash, &tip);
            assert_eq!(bytes, &stored);
        }
        other => panic!("{:?}", other),
    }
    assert!(matches!(plan[1], StoreWrite::Flush));
    match &plan[2] {
        StoreWrite::PutTip { hash } => assert_eq!(hash, &tip),
        other => panic!("{:?}", other),
    }
    assert!(matches!(plan[3], StoreWrite::Flush));
    assert!(chain.entry(2).is_none());
}
