//! The chain: blocks stored by hash, the tip that names the newest, the
//! walk from the tip back to the first block, and the unspent outputs that
//! the walk finds.
use vstd::prelude::*;
use vstd::slice::slice_to_vec;
use vstd::string::StringExecFns;
use vstd::utf8::decode_utf8;
use vstd::utf8::valid_utf8;
use crate::block::Block;
use crate::block::BlockView;
use crate::block::Candidate;
use crate::block::lemma_block_record_round_trip;
use crate::block::MAX_NONCE;
use crate::block::spec_sealed_block;
use crate::block::TARGET_HEXT;
use crate::clock::now_millis;
use crate::codec::decode_block;
use crate::codec::encode_block;
use crate::codec::spec_decode_block;
use crate::codec::spec_encode_block;
use crate::errors::LedgerError;
use crate::lookup::lemma_first_failing_is;
use crate::lookup::lemma_first_failing_none;
use crate::lookup::lemma_index_from;
use crate::lookup::lemma_index_is;
use crate::lookup::lemma_index_none;
use crate::lookup::same_text;
use crate::lookup::spec_first_failing;
use crate::lookup::spec_index_of;
use crate::transaction::spec_new_utxo;
use crate::transaction::SUBSIDY;
use crate::transaction::Transaction;
use crate::transaction::TransactionView;
use crate::tx::InputView;
use crate::tx::OutputView;
use crate::tx::spec_locking_key;
use crate::tx::text_from_utf8;
use crate::utxo::chain_transactions;
use crate::utxo::lemma_chain_transactions_prepend;
use crate::utxo::lemma_selected_never_consumed;
use crate::utxo::lemma_selected_unspent;
use crate::utxo::OutPoint;
use crate::utxo::OutPointView;
use crate::utxo::point_total;
use crate::utxo::select_outputs;
use crate::utxo::spec_balance;
use crate::utxo::spec_chain_transactions;
use crate::utxo::spec_input_spends;
use crate::utxo::spec_is_unspent;
use crate::utxo::spec_names;
use crate::utxo::spec_out_point;
use crate::utxo::spec_point_total;
use crate::utxo::spec_selected;
use crate::utxo::spec_spends;
use crate::utxo::spec_spent_by_first;
use crate::utxo::spec_unspent;
use crate::utxo::spec_unspent_of;
use crate::utxo::spec_unspent_outputs;
use crate::utxo::spec_unspent_transactions;
use crate::utxo::spec_unspent_upto;
use crate::utxo::spec_valid_walk;
use crate::utxo::unspent_outputs;
use crate::utxo::unspent_transactions;
use crate::wallet::lemma_keyed_book_get;
use crate::wallet::spec_book_get;
use crate::wallet::spec_book_keyed;
use crate::wallet::WalletView;

verus! {

/// The height of the first block of a chain.
pub const GENESIS_HEIGHT: usize = 4;

/// What the first block of a chain names as its predecessor.
pub const GENESIS_PREV_HASH: &'static str = "GENESIS ARRIVED";

/// The memo of the coinbase transaction of the first block.
pub const GENESIS_COINBASE: &'static str =
    "The Times 03/Jan/2009 Chancellor on brink of second bailout for banks";

/// What a list of stored entries holds: each key with the bytes under it.
pub open spec fn spec_store_of(entries: Seq<(String, Vec<u8>)>) -> Seq<(Seq<char>, Seq<u8>)> {
    Seq::new(entries.len(), |i: int| (entries[i].0@, entries[i].1@))
}

/// The keys of a block store, in its order.
pub open spec fn spec_store_keys(store: Seq<(Seq<char>, Seq<u8>)>) -> Seq<Seq<char>> {
    Seq::new(store.len(), |i: int| store[i].0)
}

/// The bytes that a block store holds under `key`, if it holds any.
pub open spec fn spec_store_get(store: Seq<(Seq<char>, Seq<u8>)>, key: Seq<char>) -> Option<
    Seq<u8>,
> {
    match spec_index_of(spec_store_keys(store), key) {
        Some(i) => Some(store[i].1),
        None => None,
    }
}

/// The block that a store holds under `hash`: the bytes under that key
/// decode to a block, and the block's own hash is `hash`.
pub open spec fn spec_block_at(store: Seq<(Seq<char>, Seq<u8>)>, hash: Seq<char>) -> Option<
    BlockView,
> {
    match spec_store_get(store, hash) {
        Some(bytes) => match spec_decode_block(bytes) {
            Some(record) => if record.3 == hash {
                Some(BlockView::of_record(record))
            } else {
                None
            },
            None => None,
        },
        None => None,
    }
}

/// The blocks from the one stored under `hash` back to the first, newest
/// first, following at most `fuel` links. `None` where a link leads to no
/// block of the store, or more than `fuel` links would be followed.
pub open spec fn spec_walk(store: Seq<(Seq<char>, Seq<u8>)>, hash: Seq<char>, fuel: nat) -> Option<
    Seq<BlockView>,
>
    decreases fuel,
{
    if hash == GENESIS_PREV_HASH@ {
        Some(Seq::<BlockView>::empty())
    } else if fuel == 0 {
        None
    } else {
        match spec_block_at(store, hash) {
            Some(block) => match spec_walk(store, block.prev_hash, (fuel - 1) as nat) {
                Some(rest) => Some(seq![block] + rest),
                None => None,
            },
            None => None,
        }
    }
}

/// The hash of the block that the walk from `hash` needs next and the store
/// lacks, following at most `fuel` links. `None` where the walk needs
/// nothing more: it reaches the first block, or it breaks on what the store
/// holds.
pub open spec fn spec_wanted(store: Seq<(Seq<char>, Seq<u8>)>, hash: Seq<char>, fuel: nat) -> Option<
    Seq<char>,
>
    decreases fuel,
{
    if hash == GENESIS_PREV_HASH@ {
        None
    } else if spec_store_get(store, hash) is None {
        Some(hash)
    } else if fuel == 0 {
        None
    } else {
        match spec_block_at(store, hash) {
            Some(block) => spec_wanted(store, block.prev_hash, (fuel - 1) as nat),
            None => None,
        }
    }
}

/// A walk with the blocks already visited put in front.
pub open spec fn spec_prepend(visited: Seq<BlockView>, rest: Option<Seq<BlockView>>) -> Option<
    Seq<BlockView>,
> {
    match rest {
        Some(blocks) => Some(visited + blocks),
        None => None,
    }
}

/// The transactions of the first block of a chain whose subsidy goes to
/// `address`.
pub open spec fn spec_genesis_transactions(address: Seq<char>) -> Seq<TransactionView> {
    seq![TransactionView::coinbase(address, GENESIS_COINBASE@).with_id()]
}

/// The chain that is made for `address` at `timestamp`, or why none is
/// made.
pub open spec fn spec_create(address: Seq<char>, timestamp: u128) -> Result<ChainView, LedgerError> {
    let candidate = Candidate {
        prev_hash: GENESIS_PREV_HASH@,
        transactions: spec_genesis_transactions(address),
        timestamp: timestamp,
        difficulty: TARGET_HEXT,
    };
    if TransactionView::coinbase(address, GENESIS_COINBASE@).digest() is None {
        Err(LedgerError::EncodingFailure)
    } else {
        match candidate.search(MAX_NONCE) {
            Err(e) => Err(e),
            Ok(nonce) => {
                let block = spec_sealed_block(
                    spec_genesis_transactions(address),
                    GENESIS_PREV_HASH@,
                    GENESIS_HEIGHT,
                    timestamp,
                    TARGET_HEXT,
                    nonce,
                );
                match spec_encode_block(block.record()) {
                    None => Err(LedgerError::EncodingFailure),
                    Some(bytes) => Ok(ChainView { tip: block.hash, store: seq![(block.hash, bytes)] }),
                }
            },
        }
    }
}

/// The block that appending `transactions` at `timestamp` adds to a chain,
/// or why none is added: the tip must be a block of the store, the new
/// block is sealed at the height after the tip's, and its hash must be new
/// to the store.
pub open spec fn spec_next_block(
    chain: ChainView,
    transactions: Seq<TransactionView>,
    timestamp: u128,
) -> Result<BlockView, LedgerError> {
    let candidate = Candidate {
        prev_hash: chain.tip,
        transactions: transactions,
        timestamp: timestamp,
        difficulty: TARGET_HEXT,
    };
    match spec_block_at(chain.store, chain.tip) {
        None => Err(LedgerError::StorageCorruption),
        Some(tip) => if tip.height == usize::MAX {
            Err(LedgerError::StorageCorruption)
        } else {
            match candidate.search(MAX_NONCE) {
                Err(e) => Err(e),
                Ok(nonce) => {
                    let block = spec_sealed_block(
                        transactions,
                        chain.tip,
                        (tip.height + 1) as usize,
                        timestamp,
                        TARGET_HEXT,
                        nonce,
                    );
                    if spec_encode_block(block.record()) is None {
                        Err(LedgerError::EncodingFailure)
                    } else if spec_store_get(chain.store, block.hash) is Some {
                        Err(LedgerError::StorageCorruption)
                    } else {
                        Ok(block)
                    }
                },
            }
        },
    }
}

/// A chain after `block` was appended: its encoding is stored under its
/// hash, and its hash is the tip.
pub open spec fn spec_extend(chain: ChainView, block: BlockView) -> ChainView {
    ChainView {
        tip: block.hash,
        store: chain.store.push((block.hash, spec_encode_block(block.record()).unwrap())),
    }
}

/// How the audit of one block ends: whether it is sealed at the chain's
/// difficulty, or that the encoder rejects it.
pub open spec fn spec_block_audit(block: BlockView) -> Result<bool, LedgerError> {
    if block.candidate(TARGET_HEXT).digest(block.nonce) is None {
        Err(LedgerError::EncodingFailure)
    } else {
        Ok(block.is_sealed(TARGET_HEXT))
    }
}

/// How the full audit of a chain ends.
pub open spec fn spec_audit(chain: ChainView) -> Result<bool, LedgerError> {
    match chain.blocks() {
        None => Err(LedgerError::StorageCorruption),
        Some(blocks) => {
            let bad = spec_first_failing(
                |i: int| spec_block_audit(blocks[i]) == Ok::<bool, LedgerError>(true),
                0,
                blocks.len() as int,
            );
            if bad < blocks.len() {
                spec_block_audit(blocks[bad])
            } else {
                Ok(true)
            }
        },
    }
}

/// What a chain holds.
pub struct ChainView {
    pub tip: Seq<char>,
    pub store: Seq<(Seq<char>, Seq<u8>)>,
}

impl ChainView {
    /// The blocks of the chain, from the tip back to the first. A store of
    /// `n` entries holds no chain of more than `n` blocks, so a longer walk
    /// runs in a circle and is no chain.
    pub open spec fn blocks(self) -> Option<Seq<BlockView>> {
        spec_walk(self.store, self.tip, self.store.len())
    }

    /// The hash of the block that the walk from the tip needs next and the
    /// store lacks.
    pub open spec fn wanted(self) -> Option<Seq<char>> {
        spec_wanted(self.store, self.tip, self.store.len())
    }

    /// The transactions of the chain in the order of the walk, newest block
    /// first.
    pub open spec fn transactions(self) -> Option<Seq<TransactionView>> {
        match self.blocks() {
            Some(blocks) => Some(spec_chain_transactions(blocks)),
            None => None,
        }
    }
}

/// In a walk, the first block is stored under the hash that the walk starts
/// from, each block names the hash of the next as its predecessor, and the
/// last names the predecessor of a first block.
proof fn lemma_walk_links(store: Seq<(Seq<char>, Seq<u8>)>, hash: Seq<char>, fuel: nat)
    requires
        spec_walk(store, hash, fuel) is Some,
    ensures
        ({
            let blocks = spec_walk(store, hash, fuel).unwrap();
            &&& blocks.len() <= fuel
            &&& blocks.len() == 0 <==> hash == GENESIS_PREV_HASH@
            &&& blocks.len() > 0 ==> blocks[0].hash == hash
            &&& blocks.len() > 0 ==> blocks.last().prev_hash == GENESIS_PREV_HASH@
            &&& forall|i: int|
                0 <= i < blocks.len() ==> spec_block_at(store, (#[trigger] blocks[i]).hash) == Some(
                    blocks[i],
                )
            &&& forall|i: int|
                0 <= i < blocks.len() - 1 ==> (#[trigger] blocks[i]).prev_hash == blocks[i + 1].hash
        }),
    decreases fuel,
{
    if hash != GENESIS_PREV_HASH@ {
        let block = spec_block_at(store, hash).unwrap();
        lemma_walk_links(store, block.prev_hash, (fuel - 1) as nat);
        let rest = spec_walk(store, block.prev_hash, (fuel - 1) as nat).unwrap();
        let blocks = seq![block] + rest;
        assert(blocks[0] == block);
        assert forall|i: int| 0 <= i < blocks.len() implies spec_block_at(
            store,
            (#[trigger] blocks[i]).hash,
        ) == Some(blocks[i]) by {
            if i > 0 {
                assert(blocks[i] == rest[i - 1]);
            }
        }
        assert forall|i: int| 0 <= i < blocks.len() - 1 implies (#[trigger] blocks[i]).prev_hash
            == blocks[i + 1].hash by {
            assert(blocks[i + 1] == rest[i]);
            if i > 0 {
                assert(blocks[i] == rest[i - 1]);
            }
        }
        if rest.len() > 0 {
            assert(blocks.last() == rest.last());
        }
    }
}

/// A walk that ends stays what it is where more links may be followed.
proof fn lemma_walk_monotone(
    store: Seq<(Seq<char>, Seq<u8>)>,
    hash: Seq<char>,
    fuel: nat,
    more_fuel: nat,
)
    requires
        spec_walk(store, hash, fuel) is Some,
        fuel <= more_fuel,
    ensures
        spec_walk(store, hash, more_fuel) == spec_walk(store, hash, fuel),
    decreases fuel,
{
    if hash != GENESIS_PREV_HASH@ {
        let block = spec_block_at(store, hash).unwrap();
        lemma_walk_monotone(store, block.prev_hash, (fuel - 1) as nat, (more_fuel - 1) as nat);
    }
}

/// A walk that ends follows as many links as it visits blocks, and what it
/// visits from block `from` on is the walk from the hash of that block.
proof fn lemma_walk_suffix(
    store: Seq<(Seq<char>, Seq<u8>)>,
    hash: Seq<char>,
    fuel: nat,
    from: int,
)
    requires
        spec_walk(store, hash, fuel) is Some,
        0 <= from < spec_walk(store, hash, fuel).unwrap().len(),
    ensures
        ({
            let blocks = spec_walk(store, hash, fuel).unwrap();
            spec_walk(store, blocks[from].hash, (blocks.len() - from) as nat) == Some(
                blocks.subrange(from, blocks.len() as int),
            )
        }),
    decreases fuel,
{
    lemma_walk_links(store, hash, fuel);
    let blocks = spec_walk(store, hash, fuel).unwrap();
    let block = spec_block_at(store, hash).unwrap();
    let rest = spec_walk(store, block.prev_hash, (fuel - 1) as nat).unwrap();
    assert(blocks =~= seq![block] + rest);
    if from == 0 {
        if rest.len() > 0 {
            lemma_walk_suffix(store, block.prev_hash, (fuel - 1) as nat, 0);
            assert(rest.subrange(0, rest.len() as int) =~= rest);
            lemma_walk_links(store, block.prev_hash, (fuel - 1) as nat);
        } else {
            lemma_walk_links(store, block.prev_hash, (fuel - 1) as nat);
        }
        assert(spec_walk(store, block.prev_hash, rest.len()) == Some(rest));
        assert(blocks.subrange(0, blocks.len() as int) =~= blocks);
    } else {
        lemma_walk_suffix(store, block.prev_hash, (fuel - 1) as nat, from - 1);
        assert(blocks[from] == rest[from - 1]);
        assert(blocks.subrange(from, blocks.len() as int) =~= rest.subrange(
            from - 1,
            rest.len() as int,
        ));
    }
}

/// A walk that ends visits no hash twice.
proof fn lemma_walk_visits_once(
    store: Seq<(Seq<char>, Seq<u8>)>,
    hash: Seq<char>,
    fuel: nat,
    i: int,
    j: int,
)
    requires
        spec_walk(store, hash, fuel) is Some,
        0 <= i < j < spec_walk(store, hash, fuel).unwrap().len(),
    ensures
        spec_walk(store, hash, fuel).unwrap()[i].hash != spec_walk(store, hash, fuel).unwrap()[j].hash,
{
    let blocks = spec_walk(store, hash, fuel).unwrap();
    lemma_walk_suffix(store, hash, fuel, i);
    lemma_walk_suffix(store, hash, fuel, j);
    if blocks[i].hash == blocks[j].hash {
        lemma_walk_monotone(
            store,
            blocks[j].hash,
            (blocks.len() - j) as nat,
            (blocks.len() - i) as nat,
        );
        assert(blocks.subrange(i, blocks.len() as int).len() == blocks.subrange(
            j,
            blocks.len() as int,
        ).len());
    }
}

/// No chain is refused for its length: a walk that ends, however many links
/// it may follow, ends within as many links as the store has entries, and
/// visits the same blocks.
pub proof fn lemma_walk_fits(store: Seq<(Seq<char>, Seq<u8>)>, hash: Seq<char>, fuel: nat)
    requires
        spec_walk(store, hash, fuel) is Some,
    ensures
        spec_walk(store, hash, store.len()) == spec_walk(store, hash, fuel),
{
    let blocks = spec_walk(store, hash, fuel).unwrap();
    let keys = spec_store_keys(store);
    let hashes = Seq::new(blocks.len(), |i: int| blocks[i].hash);
    lemma_walk_links(store, hash, fuel);
    assert forall|i: int, j: int| 0 <= i < hashes.len() && 0 <= j < hashes.len() && i != j implies hashes[i]
        != hashes[j] by {
        if i < j {
            lemma_walk_visits_once(store, hash, fuel, i, j);
        } else {
            lemma_walk_visits_once(store, hash, fuel, j, i);
        }
    }
    assert(hashes.no_duplicates());
    hashes.unique_seq_to_set();
    keys.lemma_cardinality_of_set();
    assert forall|h: Seq<char>| hashes.to_set().contains(h) implies keys.to_set().contains(h) by {
        let i = choose|i: int| 0 <= i < hashes.len() && hashes[i] == h;
        assert(spec_block_at(store, blocks[i].hash) == Some(blocks[i]));
        lemma_index_from(keys, h, 0);
        let at = spec_index_of(keys, h).unwrap();
        assert(keys[at] == h);
    }
    vstd::set_lib::lemma_len_subset(hashes.to_set(), keys.to_set());
    assert(blocks.len() <= store.len());
    if blocks.len() > 0 {
        lemma_walk_suffix(store, hash, fuel, 0);
        assert(blocks.subrange(0, blocks.len() as int) =~= blocks);
        lemma_walk_monotone(store, hash, blocks.len(), store.len());
    }
}

/// A walk that ends needs no block that the store lacks.
proof fn lemma_whole_walk_wants_nothing(store: Seq<(Seq<char>, Seq<u8>)>, hash: Seq<char>, fuel: nat)
    requires
        spec_walk(store, hash, fuel) is Some,
    ensures
        spec_wanted(store, hash, fuel) is None,
    decreases fuel,
{
    if hash != GENESIS_PREV_HASH@ {
        let block = spec_block_at(store, hash).unwrap();
        lemma_whole_walk_wants_nothing(store, block.prev_hash, (fuel - 1) as nat);
    }
}

/// The chain walk visits each block's predecessor next and ends at the
/// first block: in the blocks of a chain, the newest is stored under the
/// tip, each block names the hash of the next as its predecessor, and the
/// last names the predecessor of a first block.
pub proof fn lemma_chain_links(chain: ChainView)
    requires
        chain.blocks() is Some,
    ensures
        ({
            let blocks = chain.blocks().unwrap();
            &&& blocks.len() > 0 ==> blocks[0].hash == chain.tip
            &&& blocks.len() > 0 ==> blocks.last().prev_hash == GENESIS_PREV_HASH@
            &&& forall|i: int|
                0 <= i < blocks.len() - 1 ==> (#[trigger] blocks[i]).prev_hash == blocks[i + 1].hash
        }),
{
    lemma_walk_links(chain.store, chain.tip, chain.store.len());
}

/// Putting bytes under a key that is new to a store changes nothing under
/// the keys that the store holds.
proof fn lemma_push_keeps(
    store: Seq<(Seq<char>, Seq<u8>)>,
    key: Seq<char>,
    bytes: Seq<u8>,
    other: Seq<char>,
)
    requires
        spec_store_get(store, key) is None,
        spec_store_get(store, other) is Some,
    ensures
        spec_store_get(store.push((key, bytes)), other) == spec_store_get(store, other),
        spec_block_at(store.push((key, bytes)), other) == spec_block_at(store, other),
{
    let keys = spec_store_keys(store);
    let more = spec_store_keys(store.push((key, bytes)));
    lemma_index_from(keys, other, 0);
    let at = spec_index_of(keys, other).unwrap();
    assert forall|j: int| 0 <= j < at implies more[j] != other by {
        assert(more[j] == keys[j]);
    }
    assert(more[at] == keys[at]);
    lemma_index_is(more, other, 0, at);
}

/// Bytes put under a key that is new to a store are found under that key.
proof fn lemma_push_finds(store: Seq<(Seq<char>, Seq<u8>)>, key: Seq<char>, bytes: Seq<u8>)
    requires
        spec_store_get(store, key) is None,
    ensures
        spec_store_get(store.push((key, bytes)), key) == Some(bytes),
{
    let keys = spec_store_keys(store);
    let more = spec_store_keys(store.push((key, bytes)));
    lemma_index_from(keys, key, 0);
    assert forall|j: int| 0 <= j < keys.len() implies more[j] != key by {
        assert(more[j] == keys[j]);
    }
    lemma_index_is(more, key, 0, keys.len() as int);
}

/// A walk stays what it is where bytes are put under a key that is new to
/// the store, and where more links may be followed.
proof fn lemma_walk_stable(
    store: Seq<(Seq<char>, Seq<u8>)>,
    key: Seq<char>,
    bytes: Seq<u8>,
    hash: Seq<char>,
    fuel: nat,
    more_fuel: nat,
)
    requires
        spec_store_get(store, key) is None,
        spec_walk(store, hash, fuel) is Some,
        fuel <= more_fuel,
    ensures
        spec_walk(store.push((key, bytes)), hash, more_fuel) == spec_walk(store, hash, fuel),
    decreases fuel,
{
    if hash != GENESIS_PREV_HASH@ {
        lemma_push_keeps(store, key, bytes, hash);
        let block = spec_block_at(store, hash).unwrap();
        lemma_walk_stable(
            store,
            key,
            bytes,
            block.prev_hash,
            (fuel - 1) as nat,
            (more_fuel - 1) as nat,
        );
    }
}

/// An address is locked by one locking key alone.
proof fn lemma_lock_is_injective(a: Seq<char>, b: Seq<char>)
    requires
        spec_locking_key(a) == spec_locking_key(b),
    ensures
        a == b,
{
    vstd::utf8::encode_utf8_decode_utf8(a);
    vstd::utf8::encode_utf8_decode_utf8(b);
}

/// In a chain that holds its first block alone, the one unspent output of
/// the address that the chain was made for is the subsidy, and that is its
/// balance.
pub proof fn lemma_genesis_balance(address: Seq<char>)
    ensures
        spec_unspent_outputs(spec_genesis_transactions(address), address) == seq![
            spec_out_point(spec_genesis_transactions(address), 0, 0),
        ],
        spec_balance(spec_genesis_transactions(address), address) == SUBSIDY,
{
    let txs = spec_genesis_transactions(address);
    assert(spec_unspent(txs, 0, address, 0));
    let own = spec_unspent_of(txs, 0, address, 1);
    assert(spec_unspent_of(txs, 0, address, 0) =~= Seq::<OutPointView>::empty());
    assert(own =~= seq![spec_out_point(txs, 0, 0)]);
    assert(spec_unspent_upto(txs, address, 0) =~= Seq::<OutPointView>::empty());
    assert(spec_unspent_upto(txs, address, 1) =~= own);
    assert(own.drop_last() =~= Seq::<OutPointView>::empty());
    assert(spec_point_total(own) == spec_point_total(own.drop_last()) + own.last().value);
}

/// Whether `sent` is `tx` but for the signatures of its inputs.
pub open spec fn spec_same_but_signatures(tx: TransactionView, sent: TransactionView) -> bool {
    &&& sent.id == tx.id
    &&& sent.vout == tx.vout
    &&& sent.vin.len() == tx.vin.len()
    &&& forall|i: int|
        0 <= i < tx.vin.len() ==> (#[trigger] sent.vin[i]).txid == tx.vin[i].txid && sent.vin[i].vout
            == tx.vin[i].vout && sent.vin[i].pub_key == tx.vin[i].pub_key
}

proof fn lemma_transfer_balances(
    from: Seq<char>,
    to: Seq<char>,
    amount: u64,
    chain: ChainView,
    book: Seq<(Seq<char>, WalletView)>,
    sent: TransactionView,
)
    requires
        chain.transactions() == Some(spec_genesis_transactions(from)),
        spec_book_keyed(book),
        from != to,
        amount <= SUBSIDY,
        spec_new_utxo(from, to, amount, chain, book) is Ok,
        spec_same_but_signatures(spec_new_utxo(from, to, amount, chain, book)->Ok_0, sent),
    ensures
        spec_balance(seq![sent] + spec_genesis_transactions(from), from) == SUBSIDY - amount,
        spec_balance(seq![sent] + spec_genesis_transactions(from), to) == amount,
{
    let genesis = spec_genesis_transactions(from);
    let first = genesis[0];
    let key = spec_book_get(book, from).unwrap().public_key;
    let tx = spec_new_utxo(from, to, amount, chain, book)->Ok_0;
    let unsigned = tx;
    let tx = sent;
    let txs = seq![tx] + genesis;
    lemma_keyed_book_get(book, from);
    assert(tx.vin.len() == unsigned.vin.len());
    assert(tx.vout == unsigned.vout);
    let none = Seq::<OutPointView>::empty();
    lemma_genesis_balance(from);
    let points = spec_unspent_outputs(genesis, from);
    let ok = |n: int| spec_point_total(points.subrange(0, n)) < amount as int;
    assert(points.subrange(0, 0) =~= none);
    assert(points.subrange(0, 1) =~= points);
    assert(spec_point_total(none) == 0);
    assert(points.drop_last() =~= none);
    assert(spec_point_total(points) == SUBSIDY);
    let selected = spec_selected(points, amount as int);
    if amount == 0 {
        assert(!ok(0));
        lemma_first_failing_is(ok, 0, 0, 1);
        assert(selected =~= none);
    } else {
        assert(ok(0));
        lemma_first_failing_none(ok, 0, 1);
        assert(selected =~= points);
    }
    assert(txs.len() == 2);
    assert(txs[0] == tx);
    assert(txs[1] == first);
    assert(tx.vout[0] == OutputView { value: amount, pub_key_hash: spec_locking_key(to) });
    if spec_locking_key(to) == spec_locking_key(from) {
        lemma_lock_is_injective(to, from);
    }
    assert(!spec_spent_by_first(txs, 0, from, tx.id, 0));
    assert(!spec_spent_by_first(txs, 0, from, tx.id, 1));
    assert(!spec_spent_by_first(txs, 0, to, tx.id, 0));
    assert(!spec_unspent(txs, 0, from, 0));
    assert(spec_unspent(txs, 0, to, 0));
    assert(!spec_unspent(txs, 1, to, 0));
    // What the transfer leaves unspent in its own outputs.
    assert(spec_unspent_of(txs, 0, from, 0) =~= none);
    assert(spec_unspent_of(txs, 0, from, 1) =~= none);
    assert(spec_unspent_of(txs, 0, to, 0) =~= none);
    assert(spec_unspent_of(txs, 0, to, 1) =~= seq![spec_out_point(txs, 0, 0)]);
    assert(spec_unspent_upto(txs, from, 0) =~= none);
    assert(spec_unspent_upto(txs, to, 0) =~= none);
    // The output of the first block, as seen behind the transfer.
    assert(spec_unspent_of(txs, 1, from, 0) =~= none);
    assert(spec_unspent_of(txs, 1, to, 0) =~= none);
    assert(spec_unspent_of(txs, 1, to, 1) =~= none);
    if amount == 0 {
        assert(tx.vin.len() == 0);
        assert(tx.vout.len() == 1);
        assert(!spec_spends(tx, from, first.id, 0));
        assert(!spec_spent_by_first(txs, 1, from, first.id, 0)) by {
            if spec_spent_by_first(txs, 1, from, first.id, 0) {
                let j = choose|j: int|
                    0 <= j < 1 && spec_spends(#[trigger] txs[j], from, first.id, 0);
                assert(txs[j] == tx);
            }
        }
        assert(spec_unspent(txs, 1, from, 0));
        assert(spec_unspent_of(txs, 1, from, 1) =~= seq![spec_out_point(txs, 1, 0)]);
        assert(spec_unspent_upto(txs, from, 1) =~= none);
        assert(spec_unspent_upto(txs, from, 2) =~= seq![spec_out_point(txs, 1, 0)]);
        let left = spec_unspent_outputs(txs, from);
        assert(left.drop_last() =~= none);
        assert(spec_point_total(left) == spec_point_total(left.drop_last()) + left.last().value);
    } else {
        assert(tx.vin.len() == 1);
        assert(unsigned.vin[0] == InputView {
            txid: first.id,
            vout: 0,
            signature: Seq::<u8>::empty(),
            pub_key: key,
        });
        assert(tx.vin[0].txid == first.id && tx.vin[0].vout == 0 && tx.vin[0].pub_key == key);
        assert(!tx.is_coinbase());
        assert(spec_input_spends(tx.vin[0], from, first.id, 0));
        assert(spec_spends(tx, from, first.id, 0));
        assert(spec_spends(txs[0], from, first.id, 0));
        assert(spec_spent_by_first(txs, 1, from, first.id, 0));
        assert(!spec_unspent(txs, 1, from, 0));
        assert(spec_unspent_of(txs, 1, from, 1) =~= none);
        if amount < SUBSIDY {
            assert(tx.vout.len() == 2);
            assert(tx.vout[1] == OutputView {
                value: (SUBSIDY - amount) as u64,
                pub_key_hash: spec_locking_key(from),
            });
            assert(spec_unspent(txs, 0, from, 1));
            assert(!spec_unspent(txs, 0, to, 1));
            assert(spec_unspent_of(txs, 0, from, 2) =~= seq![spec_out_point(txs, 0, 1)]);
            assert(spec_unspent_of(txs, 0, to, 2) =~= seq![spec_out_point(txs, 0, 0)]);
            assert(spec_unspent_upto(txs, from, 1) =~= seq![spec_out_point(txs, 0, 1)]);
            assert(spec_unspent_upto(txs, from, 2) =~= seq![spec_out_point(txs, 0, 1)]);
            let left = spec_unspent_outputs(txs, from);
            assert(left.drop_last() =~= none);
            assert(spec_point_total(left) == spec_point_total(left.drop_last())
                + left.last().value);
        } else {
            assert(tx.vout.len() == 1);
            assert(spec_unspent_upto(txs, from, 1) =~= none);
            assert(spec_unspent_upto(txs, from, 2) =~= none);
        }
    }
    assert(spec_unspent_upto(txs, to, 1) =~= seq![spec_out_point(txs, 0, 0)]);
    assert(spec_unspent_upto(txs, to, 2) =~= seq![spec_out_point(txs, 0, 0)]);
    let got = spec_unspent_outputs(txs, to);
    assert(got.drop_last() =~= none);
    assert(spec_point_total(got) == spec_point_total(got.drop_last()) + got.last().value);
}

/// The first transfer over a new chain moves the amount: where a chain
/// holds its first block alone, made for `from`, and every wallet of the
/// address book stands under its own address, the transfer of `amount` to
/// another address `to`, once it heads the walk, leaves `from` the subsidy
/// less the amount and gives `to` the amount. That holds of the transfer as
/// it is built, and of the transfer signed with whatever key.
pub proof fn lemma_first_transfer(
    from: Seq<char>,
    to: Seq<char>,
    amount: u64,
    chain: ChainView,
    book: Seq<(Seq<char>, WalletView)>,
    key: Seq<u8>,
    prev: Seq<TransactionView>,
)
    requires
        chain.transactions() == Some(spec_genesis_transactions(from)),
        spec_book_keyed(book),
        from != to,
        amount <= SUBSIDY,
        spec_new_utxo(from, to, amount, chain, book) is Ok,
    ensures
        ({
            let built = spec_new_utxo(from, to, amount, chain, book)->Ok_0;
            let signed = built.signed(key, prev);
            let genesis = spec_genesis_transactions(from);
            &&& spec_balance(seq![built] + genesis, from) == SUBSIDY - amount
            &&& spec_balance(seq![built] + genesis, to) == amount
            &&& spec_balance(seq![signed] + genesis, from) == SUBSIDY - amount
            &&& spec_balance(seq![signed] + genesis, to) == amount
        }),
{
    let built = spec_new_utxo(from, to, amount, chain, book)->Ok_0;
    lemma_transfer_balances(from, to, amount, chain, book, built);
    lemma_transfer_balances(from, to, amount, chain, book, built.signed(key, prev));
}

/// What is written to the durable store, one step at a time.
#[derive(Debug)]
pub enum StoreWrite {
    /// Write the encoded block under its hash.
    PutBlock { hash: String, bytes: Vec<u8> },
    /// Make what was written so far durable.
    Flush,
    /// Write the hash of the newest block as the tip.
    PutTip { hash: String },
}

/// What a [`StoreWrite`] holds.
pub enum StoreWriteView {
    PutBlock { hash: Seq<char>, bytes: Seq<u8> },
    Flush,
    PutTip { hash: Seq<char> },
}

impl View for StoreWrite {
    type V = StoreWriteView;

    open spec fn view(&self) -> StoreWriteView {
        match self {
            StoreWrite::PutBlock { hash, bytes } => StoreWriteView::PutBlock {
                hash: hash@,
                bytes: bytes@,
            },
            StoreWrite::Flush => StoreWriteView::Flush,
            StoreWrite::PutTip { hash } => StoreWriteView::PutTip { hash: hash@ },
        }
    }
}

impl DeepView for StoreWrite {
    type V = StoreWriteView;

    open spec fn deep_view(&self) -> StoreWriteView {
        self@
    }
}

/// The writes that make the newest block of a chain durable, in the order
/// in which they are made: the block is written and made durable before
/// the tip names it. `None` where the store holds nothing under the tip.
pub open spec fn spec_tip_writes(chain: ChainView) -> Option<Seq<StoreWriteView>> {
    match spec_store_get(chain.store, chain.tip) {
        Some(bytes) => Some(
            seq![
                StoreWriteView::PutBlock { hash: chain.tip, bytes: bytes },
                StoreWriteView::Flush,
                StoreWriteView::PutTip { hash: chain.tip },
                StoreWriteView::Flush,
            ],
        ),
        None => None,
    }
}

/// A chain of blocks: the store that holds the encoded blocks by hash, and
/// the hash of the newest block.
#[derive(Debug)]
pub struct Blockchain {
    tip: String,
    db: Vec<(String, Vec<u8>)>,
}

impl View for Blockchain {
    type V = ChainView;

    closed spec fn view(&self) -> ChainView {
        ChainView { tip: self.tip@, store: spec_store_of(self.db@) }
    }
}

impl Blockchain {
    fn position(&self, key: &str) -> (at: Option<usize>)
        ensures
            match at {
                Some(i) => spec_index_of(spec_store_keys(self@.store), key@) == Some(i as int) && i
                    < self.db@.len(),
                None => spec_index_of(spec_store_keys(self@.store), key@) is None,
            },
    {
        let ghost keys = spec_store_keys(self@.store);
        let mut i: usize = 0;
        while i < self.db.len()
            invariant
                i <= self.db@.len(),
                keys == spec_store_keys(self@.store),
                keys.len() == self.db@.len(),
                forall|j: int| 0 <= j < i ==> keys[j] != key@,
            decreases self.db.len() - i,
        {
            if same_text(self.db[i].0.as_str(), key) {
                proof {
                    lemma_index_is(keys, key@, 0, i as int);
                }
                return Some(i);
            }
            i += 1;
        }
        proof {
            lemma_index_none(keys, key@, 0);
        }
        None
    }

    /// Opens a chain from what the durable store holds: the bytes of the
    /// tip pointer, if there is one, and the stored entries. The tip is the
    /// text of the pointer; whether the store holds a block under it is
    /// left to the walk. Fails with `StorageCorruption` exactly where the
    /// tip pointer is absent or is not UTF-8.
    pub fn new(tip_pointer: Option<Vec<u8>>, entries: Vec<(String, Vec<u8>)>) -> (made: Result<
        Blockchain,
        LedgerError,
    >)
        ensures
            match made {
                Ok(chain) => {
                    &&& tip_pointer is Some
                    &&& valid_utf8(tip_pointer.unwrap()@)
                    &&& chain@ == (ChainView {
                        tip: decode_utf8(tip_pointer.unwrap()@),
                        store: spec_store_of(entries@),
                    })
                },
                Err(e) => {
                    &&& e == LedgerError::StorageCorruption
                    &&& tip_pointer is None || !valid_utf8(tip_pointer.unwrap()@)
                },
            },
    {
        match tip_pointer {
            Some(bytes) => match text_from_utf8(bytes) {
                Some(tip) => Ok(Blockchain { tip, db: entries }),
                None => Err(LedgerError::StorageCorruption),
            },
            None => Err(LedgerError::StorageCorruption),
        }
    }

    /// Names the block that must be read from the durable store next: the
    /// hash of the first block on the walk from the tip that the store
    /// lacks. `None` where the walk needs nothing more. The store holds
    /// nothing under a hash that is named.
    pub fn wanted(&self) -> (hash: Option<String>)
        ensures
            match hash {
                Some(h) => self@.wanted() == Some(h@) && spec_store_get(self@.store, h@) is None,
                None => self@.wanted() is None,
            },
            self@.blocks() is Some ==> hash is None,
    {
        let ghost store = self@.store;
        proof {
            if self@.blocks() is Some {
                lemma_whole_walk_wants_nothing(store, self@.tip, store.len());
            }
        }
        let mut hash = self.tip.clone();
        let mut fuel = self.db.len();
        while !same_text(hash.as_str(), GENESIS_PREV_HASH)
            invariant
                store == self@.store,
                spec_wanted(store, self@.tip, store.len()) == spec_wanted(store, hash@, fuel as nat),
                self@.blocks() is Some ==> spec_wanted(store, self@.tip, store.len()) is None,
            decreases fuel,
        {
            if self.position(hash.as_str()).is_none() {
                return Some(hash);
            }
            if fuel == 0 {
                return None;
            }
            let block = match self.block_at(hash.as_str()) {
                Some(block) => block,
                None => {
                    return None;
                },
            };
            hash = block.get_prev_hash();
            fuel = fuel - 1;
        }
        None
    }

    /// Takes in what was read from the durable store under `key`. Where the
    /// store holds something under `key` already, it is left as it is.
    pub fn supply(&mut self, key: String, bytes: Vec<u8>)
        ensures
            final(self)@.tip == old(self)@.tip,
            final(self)@.store == if spec_store_get(old(self)@.store, key@) is None {
                old(self)@.store.push((key@, bytes@))
            } else {
                old(self)@.store
            },
    {
        if self.position(key.as_str()).is_none() {
            self.db.push((key, bytes));
            assert(final(self)@.store =~= old(self)@.store.push((key@, bytes@)));
        }
    }

    /// Makes a new chain: its first block holds one coinbase transaction
    /// that pays the subsidy to `address`, and is stamped with the current
    /// time.
    pub fn create_blockchain(address: String) -> (made: Result<Blockchain, LedgerError>)
        ensures
            match made {
                Ok(chain) => exists|timestamp: u128|
                    {
                        &&& #[trigger] spec_create(address@, timestamp) == Ok::<
                            ChainView,
                            LedgerError,
                        >(chain@)
                        &&& chain@.blocks() is Some
                        &&& chain@.blocks().unwrap().len() == 1
                        &&& chain@.blocks().unwrap()[0].transactions == spec_genesis_transactions(
                            address@,
                        )
                        &&& chain@.transactions() == Some(spec_genesis_transactions(address@))
                        &&& spec_balance(spec_genesis_transactions(address@), address@) == SUBSIDY
                    },
                Err(e) => e == LedgerError::ClockUnavailable || exists|timestamp: u128| #[trigger]
                    spec_create(address@, timestamp) == Err::<ChainView, LedgerError>(e),
            },
    {
        match now_millis() {
            Some(timestamp) => match Blockchain::create_blockchain_at(address, timestamp) {
                Ok(chain) => {
                    assert(spec_create(address@, timestamp) == Ok::<ChainView, LedgerError>(chain@));
                    Ok(chain)
                },
                Err(e) => {
                    assert(spec_create(address@, timestamp) == Err::<ChainView, LedgerError>(e));
                    Err(e)
                },
            },
            None => Err(LedgerError::ClockUnavailable),
        }
    }

    /// Makes a new chain whose first block is stamped with `timestamp`: the
    /// block holds one coinbase transaction that pays the subsidy to
    /// `address`, names the predecessor of a first block, and is sealed at
    /// the chain's difficulty. The store holds that block alone, and the
    /// walk from the tip visits it alone.
    pub fn create_blockchain_at(address: String, timestamp: u128) -> (made: Result<
        Blockchain,
        LedgerError,
    >)
        ensures
            match made {
                Ok(chain) => {
                    &&& spec_create(address@, timestamp) == Ok::<ChainView, LedgerError>(chain@)
                    &&& chain@.blocks() is Some
                    &&& chain@.blocks().unwrap().len() == 1
                    &&& chain@.blocks().unwrap()[0].transactions == spec_genesis_transactions(
                        address@,
                    )
                    &&& chain@.blocks().unwrap()[0].hash == chain@.tip
                    &&& chain@.blocks().unwrap()[0].prev_hash == GENESIS_PREV_HASH@
                    &&& chain@.blocks().unwrap()[0].height == GENESIS_HEIGHT
                    &&& chain@.blocks().unwrap()[0].is_sealed(TARGET_HEXT)
                    &&& chain@.transactions() == Some(spec_genesis_transactions(address@))
                    &&& spec_balance(spec_genesis_transactions(address@), address@) == SUBSIDY
                },
                Err(e) => spec_create(address@, timestamp) == Err::<ChainView, LedgerError>(e),
            },
    {
        let coinbase = match Transaction::new_coinbase(address, String::from_str(GENESIS_COINBASE)) {
            Ok(tx) => tx,
            Err(e) => {
                return Err(e);
            },
        };
        let mut transactions: Vec<Transaction> = Vec::new();
        transactions.push(coinbase);
        assert(transactions.deep_view() =~= spec_genesis_transactions(address@));
        let genesis = match Block::seal(
            transactions,
            String::from_str(GENESIS_PREV_HASH),
            GENESIS_HEIGHT,
            timestamp,
            TARGET_HEXT,
            MAX_NONCE,
        ) {
            Ok(block) => block,
            Err(e) => {
                return Err(e);
            },
        };
        let bytes = match encode_block(&genesis.fields()) {
            Some(bytes) => bytes,
            None => {
                return Err(LedgerError::EncodingFailure);
            },
        };
        let hash = genesis.get_hash();
        let mut db: Vec<(String, Vec<u8>)> = Vec::new();
        db.push((hash.clone(), bytes));
        let chain = Blockchain { tip: hash, db };
        proof {
            let block = genesis@;
            let store = chain@.store;
            assert(store =~= seq![(block.hash, bytes@)]);
            lemma_block_record_round_trip(block);
            reveal_strlit("GENESIS ARRIVED");
            let keys = spec_store_keys(store);
            lemma_index_is(keys, block.hash, 0, 0);
            assert(spec_block_at(store, block.hash) == Some(block));
            assert(spec_walk(store, block.prev_hash, 0) == Some(Seq::<BlockView>::empty()));
            assert(spec_walk(store, block.hash, 1) == Some(seq![block] + Seq::<BlockView>::empty()));
            assert(seq![block] + Seq::<BlockView>::empty() =~= seq![block]);
            lemma_genesis_balance(address@);
            assert(seq![block].drop_last() =~= Seq::<BlockView>::empty());
            assert(spec_chain_transactions(Seq::<BlockView>::empty())
                =~= Seq::<TransactionView>::empty());
            assert(spec_chain_transactions(seq![block]) =~= block.transactions);
        }
        Ok(chain)
    }

    /// Seals `transactions` into a new block that is stamped with the
    /// current time, stores it and makes it the tip. On failure the chain
    /// is left as it is.
    pub fn add_block(&mut self, transactions: Vec<Transaction>) -> (done: Result<(), LedgerError>)
        ensures
            match done {
                Ok(()) => exists|timestamp: u128|
                    {
                        let block = spec_next_block(
                            old(self)@,
                            transactions.deep_view(),
                            timestamp,
                        )->Ok_0;
                        &&& #[trigger] spec_next_block(
                            old(self)@,
                            transactions.deep_view(),
                            timestamp,
                        ) is Ok
                        &&& final(self)@ == spec_extend(old(self)@, block)
                        &&& spec_block_at(final(self)@.store, block.hash) == Some(block)
                        &&& old(self)@.blocks() is Some ==> final(self)@.blocks() == Some(
                            seq![block] + old(self)@.blocks().unwrap(),
                        )
                        &&& old(self)@.transactions() is Some ==> final(self)@.transactions()
                            == Some(transactions.deep_view() + old(self)@.transactions().unwrap())
                    },
                Err(e) => {
                    &&& final(self)@ == old(self)@
                    &&& e == LedgerError::ClockUnavailable || exists|timestamp: u128| #[trigger]
                        spec_next_block(old(self)@, transactions.deep_view(), timestamp) == Err::<
                            BlockView,
                            LedgerError,
                        >(e)
                },
            },
    {
        let ghost txs = transactions.deep_view();
        match now_millis() {
            Some(timestamp) => match self.add_block_at(transactions, timestamp) {
                Ok(()) => {
                    assert(spec_next_block(old(self)@, txs, timestamp) is Ok);
                    Ok(())
                },
                Err(e) => {
                    assert(spec_next_block(old(self)@, txs, timestamp) == Err::<
                        BlockView,
                        LedgerError,
                    >(e));
                    Err(e)
                },
            },
            None => Err(LedgerError::ClockUnavailable),
        }
    }

    /// Seals `transactions` into a new block that is stamped with
    /// `timestamp`, names the tip as its predecessor and stands one above
    /// it; stores the block under its hash, then makes that hash the tip.
    /// On failure the chain is left as it is: nothing is stored and the tip
    /// is the old one.
    ///
    /// Where the walk from the old tip reaches the first block, the walk
    /// from the new tip visits the new block and then the same blocks.
    pub fn add_block_at(&mut self, transactions: Vec<Transaction>, timestamp: u128) -> (done: Result<
        (),
        LedgerError,
    >)
        ensures
            match done {
                Ok(()) => {
                    let block = spec_next_block(old(self)@, transactions.deep_view(), timestamp)->Ok_0;
                    &&& spec_next_block(old(self)@, transactions.deep_view(), timestamp) is Ok
                    &&& final(self)@ == spec_extend(old(self)@, block)
                    &&& spec_block_at(final(self)@.store, block.hash) == Some(block)
                    &&& old(self)@.blocks() is Some ==> final(self)@.blocks() == Some(
                        seq![block] + old(self)@.blocks().unwrap(),
                    )
                    &&& old(self)@.transactions() is Some ==> final(self)@.transactions() == Some(
                        transactions.deep_view() + old(self)@.transactions().unwrap(),
                    )
                },
                Err(e) => {
                    &&& spec_next_block(old(self)@, transactions.deep_view(), timestamp) == Err::<
                        BlockView,
                        LedgerError,
                    >(e)
                    &&& final(self)@ == old(self)@
                },
            },
    {
        let ghost before = self@;
        let tip = match self.block_at(self.tip.as_str()) {
            Some(block) => block,
            None => {
                return Err(LedgerError::StorageCorruption);
            },
        };
        if tip.get_height() == usize::MAX {
            return Err(LedgerError::StorageCorruption);
        }
        let block = match Block::seal(
            transactions,
            self.tip.clone(),
            tip.get_height() + 1,
            timestamp,
            TARGET_HEXT,
            MAX_NONCE,
        ) {
            Ok(block) => block,
            Err(e) => {
                return Err(e);
            },
        };
        let bytes = match encode_block(&block.fields()) {
            Some(bytes) => bytes,
            None => {
                return Err(LedgerError::EncodingFailure);
            },
        };
        let hash = block.get_hash();
        if self.position(hash.as_str()).is_some() {
            return Err(LedgerError::StorageCorruption);
        }
        self.db.push((hash.clone(), bytes));
        self.tip = hash;
        proof {
            let made = block@;
            let after = self@;
            assert(after.store =~= before.store.push((made.hash, bytes@)));
            lemma_block_record_round_trip(made);
            lemma_push_finds(before.store, made.hash, bytes@);
            assert(spec_block_at(after.store, made.hash) == Some(made));
            if before.blocks() is Some {
                reveal_strlit("GENESIS ARRIVED");
                lemma_walk_stable(
                    before.store,
                    made.hash,
                    bytes@,
                    before.tip,
                    before.store.len(),
                    before.store.len(),
                );
                lemma_chain_transactions_prepend(made, before.blocks().unwrap());
            }
        }
        Ok(())
    }

    /// Walks the chain from the tip back to the first block and returns the
    /// blocks, newest first. Fails with `StorageCorruption` exactly where a
    /// link leads to no block of the store, or the links run in a circle.
    pub fn blocks(&self) -> (walked: Result<Vec<Block>, LedgerError>)
        ensures
            match walked {
                Ok(blocks) => self@.blocks() == Some(blocks.deep_view()),
                Err(e) => e == LedgerError::StorageCorruption && self@.blocks() is None,
            },
    {
        self.blocks_from(self.tip.as_str())
    }

    /// Walks from the block stored under `start` back to the first block
    /// and returns the blocks, newest first. Fails with `StorageCorruption`
    /// exactly where a link leads to no block of the store, or the links
    /// run in a circle.
    pub fn blocks_from(&self, start: &str) -> (walked: Result<Vec<Block>, LedgerError>)
        ensures
            match walked {
                Ok(blocks) => spec_walk(self@.store, start@, self@.store.len()) == Some(
                    blocks.deep_view(),
                ),
                Err(e) => e == LedgerError::StorageCorruption && spec_walk(
                    self@.store,
                    start@,
                    self@.store.len(),
                ) is None,
            },
    {
        let ghost store = self@.store;
        let mut visited: Vec<Block> = Vec::new();
        let mut hash = String::from_str(start);
        let mut fuel = self.db.len();
        assert(visited.deep_view() + Seq::<BlockView>::empty() =~= Seq::<BlockView>::empty());
        assert(visited.deep_view() =~= Seq::<BlockView>::empty());
        while !same_text(hash.as_str(), GENESIS_PREV_HASH)
            invariant
                store == self@.store,
                spec_walk(store, start@, store.len()) == spec_prepend(
                    visited.deep_view(),
                    spec_walk(store, hash@, fuel as nat),
                ),
            decreases fuel,
        {
            if fuel == 0 {
                return Err(LedgerError::StorageCorruption);
            }
            let block = match self.block_at(hash.as_str()) {
                Some(block) => block,
                None => {
                    return Err(LedgerError::StorageCorruption);
                },
            };
            proof {
                let rest = spec_walk(store, block@.prev_hash, (fuel - 1) as nat);
                if rest is Some {
                    assert(visited.deep_view() + (seq![block@] + rest.unwrap())
                        =~= visited.deep_view().push(block@) + rest.unwrap());
                }
            }
            let ghost seen = visited.deep_view();
            let ghost view = block@;
            hash = block.get_prev_hash();
            visited.push(block);
            assert(visited.deep_view() =~= seen.push(view));
            fuel = fuel - 1;
        }
        assert(visited.deep_view() + Seq::<BlockView>::empty() =~= visited.deep_view());
        Ok(visited)
    }

    /// Starts a walk at the tip.
    pub fn iter(&self) -> (walk: BlockchainIterator<'_>)
        ensures
            walk@.curr_hash == self@.tip,
            walk@.chain == self@,
    {
        BlockchainIterator { curr_hash: self.tip.clone(), bc: self }
    }

    /// Starts a walk at the block stored under `start`.
    pub fn iter_from(&self, start: &str) -> (walk: BlockchainIterator<'_>)
        ensures
            walk@.curr_hash == start@,
            walk@.chain == self@,
    {
        BlockchainIterator { curr_hash: String::from_str(start), bc: self }
    }

    /// Audits the chain in full: walks it from the tip back to the first
    /// block and hashes every block again. The chain passes where every
    /// block is sealed at the chain's difficulty. Fails with
    /// `StorageCorruption` where the walk fails, and with `EncodingFailure`
    /// where the encoder rejects a block and every block before it in the
    /// walk is sealed.
    pub fn audit(&self) -> (passed: Result<bool, LedgerError>)
        ensures
            passed == spec_audit(self@),
    {
        let blocks = match self.blocks() {
            Ok(blocks) => blocks,
            Err(e) => {
                return Err(e);
            },
        };
        let ghost walked = blocks.deep_view();
        let ghost ok = |i: int| spec_block_audit(walked[i]) == Ok::<bool, LedgerError>(true);
        let mut i: usize = 0;
        while i < blocks.len()
            invariant
                i <= blocks@.len(),
                walked == blocks.deep_view(),
                self@.blocks() == Some(walked),
                ok == (|i: int| spec_block_audit(walked[i]) == Ok::<bool, LedgerError>(true)),
                forall|k: int| 0 <= k < i ==> #[trigger] ok(k),
            decreases blocks.len() - i,
        {
            assert(walked[i as int] == blocks@[i as int]@);
            match blocks[i].audit_seal(TARGET_HEXT) {
                Ok(true) => {
                    assert(ok(i as int));
                },
                Ok(false) => {
                    proof {
                        assert(!ok(i as int));
                        lemma_first_failing_is(ok, 0, i as int, walked.len() as int);
                    }
                    return Ok(false);
                },
                Err(e) => {
                    proof {
                        assert(!ok(i as int));
                        lemma_first_failing_is(ok, 0, i as int, walked.len() as int);
                    }
                    return Err(e);
                },
            }
            i += 1;
        }
        proof {
            lemma_first_failing_none(ok, 0, walked.len() as int);
        }
        Ok(true)
    }

    /// Walks the chain and returns its transactions in the order of the
    /// walk, newest block first. Fails with `StorageCorruption` exactly
    /// where the walk fails.
    pub fn transactions(&self) -> (listed: Result<Vec<Transaction>, LedgerError>)
        ensures
            match listed {
                Ok(txs) => self@.transactions() == Some(txs.deep_view()),
                Err(e) => e == LedgerError::StorageCorruption && self@.transactions() is None,
            },
    {
        match self.blocks() {
            Ok(blocks) => Ok(chain_transactions(&blocks)),
            Err(e) => Err(e),
        }
    }

    /// Finds the transactions that hold an unspent output of `address`, in
    /// the order of the walk. Fails with `StorageCorruption` exactly where
    /// the walk fails.
    pub fn find_unspent_transactions(&self, address: &str) -> (found: Result<
        Vec<Transaction>,
        LedgerError,
    >)
        ensures
            match found {
                Ok(holders) => {
                    &&& self@.transactions() is Some
                    &&& holders.deep_view() == spec_unspent_transactions(
                        self@.transactions().unwrap(),
                        address@,
                    )
                },
                Err(e) => e == LedgerError::StorageCorruption && self@.transactions() is None,
            },
    {
        match self.transactions() {
            Ok(txs) => Ok(unspent_transactions(&txs, address)),
            Err(e) => Err(e),
        }
    }

    /// Finds the unspent outputs of `address`, in the order of the walk:
    /// each output that is locked to `address` and that no transaction
    /// visited before its own spends in the name of `address`. Fails with
    /// `StorageCorruption` exactly where the walk fails.
    #[allow(non_snake_case)]
    pub fn find_UTX0(&self, address: &str) -> (found: Result<Vec<OutPoint>, LedgerError>)
        ensures
            match found {
                Ok(points) => {
                    &&& self@.transactions() is Some
                    &&& points.deep_view() == spec_unspent_outputs(
                        self@.transactions().unwrap(),
                        address@,
                    )
                },
                Err(e) => e == LedgerError::StorageCorruption && self@.transactions() is None,
            },
    {
        match self.transactions() {
            Ok(txs) => Ok(unspent_outputs(&txs, address)),
            Err(e) => Err(e),
        }
    }

    /// Selects unspent outputs of `address` that pay `amount`: takes them in
    /// the order of the walk until their sum reaches `amount`, and returns
    /// the sum with the outputs taken. The sum is below `amount` exactly
    /// where the balance of `address` is; every output taken is unspent.
    /// Fails with `StorageCorruption` exactly where the walk fails.
    pub fn find_spendable_outputs(&self, address: &str, amount: u64) -> (found: Result<
        (u128, Vec<OutPoint>),
        LedgerError,
    >)
        ensures
            match found {
                Ok((accumulated, selected)) => {
                    let txs = self@.transactions().unwrap();
                    &&& self@.transactions() is Some
                    &&& selected.deep_view() == spec_selected(
                        spec_unspent_outputs(txs, address@),
                        amount as int,
                    )
                    &&& accumulated == spec_point_total(selected.deep_view())
                    &&& accumulated <= amount + u64::MAX
                    &&& accumulated >= amount <==> spec_balance(txs, address@) >= amount
                    &&& forall|p: int|
                        0 <= p < selected.deep_view().len() ==> spec_is_unspent(
                            txs,
                            address@,
                            #[trigger] selected.deep_view()[p],
                        )
                    &&& spec_valid_walk(txs) ==> forall|p: int, j: int|
                        0 <= p < selected.deep_view().len() && 0 <= j < txs.len() ==> !spec_names(
                            #[trigger] txs[j],
                            (#[trigger] selected.deep_view()[p]).txid,
                            selected.deep_view()[p].vout as int,
                        )
                },
                Err(e) => e == LedgerError::StorageCorruption && self@.transactions() is None,
            },
    {
        match self.transactions() {
            Ok(txs) => {
                let points = unspent_outputs(&txs, address);
                let selection = select_outputs(&points, amount);
                proof {
                    lemma_selected_unspent(txs.deep_view(), address@, amount as int);
                    if spec_valid_walk(txs.deep_view()) {
                        lemma_selected_never_consumed(txs.deep_view(), address@, amount as int);
                    }
                }
                Ok(selection)
            },
            Err(e) => Err(e),
        }
    }

    /// Computes the balance of `address`: the sum of its unspent outputs
    /// over the whole chain. Fails with `StorageCorruption` exactly where
    /// the walk fails.
    pub fn balance(&self, address: &str) -> (sum: Result<u128, LedgerError>)
        ensures
            match sum {
                Ok(total) => self@.transactions() is Some && total == spec_balance(
                    self@.transactions().unwrap(),
                    address@,
                ),
                Err(e) => e == LedgerError::StorageCorruption && self@.transactions() is None,
            },
    {
        match self.transactions() {
            Ok(txs) => Ok(point_total(&unspent_outputs(&txs, address))),
            Err(e) => Err(e),
        }
    }

    /// Plans the writes that make the newest block durable: the block under
    /// its hash, then, once that is durable, the tip. A crash between the
    /// two leaves the old tip in place. `None` where the store holds
    /// nothing under the tip.
    pub fn tip_writes(&self) -> (plan: Option<Vec<StoreWrite>>)
        ensures
            match plan {
                Some(writes) => spec_tip_writes(self@) == Some(writes.deep_view()),
                None => spec_tip_writes(self@) is None,
            },
    {
        match self.get(self.tip.as_str()) {
            Some(bytes) => {
                let mut writes: Vec<StoreWrite> = Vec::new();
                writes.push(StoreWrite::PutBlock { hash: self.tip.clone(), bytes });
                writes.push(StoreWrite::Flush);
                writes.push(StoreWrite::PutTip { hash: self.tip.clone() });
                writes.push(StoreWrite::Flush);
                assert(writes.deep_view() =~= spec_tip_writes(self@).unwrap());
                Some(writes)
            },
            None => None,
        }
    }

    /// Returns the hash of the newest block.
    pub fn get_tip(&self) -> (tip: String)
        ensures
            tip@ == self@.tip,
    {
        self.tip.clone()
    }

    /// Returns the number of entries of the store.
    pub fn len(&self) -> (entries: usize)
        ensures
            entries == self@.store.len(),
    {
        self.db.len()
    }

    /// Returns the key and the bytes of entry `index` of the store. `None`
    /// exactly where the store has no such entry.
    pub fn entry(&self, index: usize) -> (entry: Option<(String, Vec<u8>)>)
        ensures
            match entry {
                Some((key, bytes)) => {
                    &&& index < self@.store.len()
                    &&& key@ == self@.store[index as int].0
                    &&& bytes@ == self@.store[index as int].1
                },
                None => index >= self@.store.len(),
            },
    {
        if index < self.db.len() {
            Some((self.db[index].0.clone(), slice_to_vec(self.db[index].1.as_slice())))
        } else {
            None
        }
    }

    /// Returns the bytes stored under `key`, if there are any.
    pub fn get(&self, key: &str) -> (bytes: Option<Vec<u8>>)
        ensures
            match bytes {
                Some(b) => spec_store_get(self@.store, key@) == Some(b@),
                None => spec_store_get(self@.store, key@) is None,
            },
    {
        match self.position(key) {
            Some(i) => Some(slice_to_vec(self.db[i].1.as_slice())),
            None => None,
        }
    }

    /// Fetches and decodes the block stored under `hash`. `None` where the
    /// store holds nothing under `hash`, the bytes decode to no block, or
    /// the block's own hash is another.
    pub fn block_at(&self, hash: &str) -> (block: Option<Block>)
        ensures
            match block {
                Some(b) => spec_block_at(self@.store, hash@) == Some(b@),
                None => spec_block_at(self@.store, hash@) is None,
            },
    {
        match self.position(hash) {
            Some(i) => match decode_block(self.db[i].1.as_slice()) {
                Some(fields) => {
                    if same_text(fields.3.as_str(), hash) {
                        Some(Block::from_fields(&fields))
                    } else {
                        None
                    }
                },
                None => None,
            },
            None => None,
        }
    }
}

/// Where a walk stands.
pub struct WalkView {
    pub curr_hash: Seq<char>,
    pub chain: ChainView,
}

/// A walk along a chain, from a block back to the first.
#[derive(Debug)]
pub struct BlockchainIterator<'a> {
    curr_hash: String,
    bc: &'a Blockchain,
}

impl<'a> View for BlockchainIterator<'a> {
    type V = WalkView;

    closed spec fn view(&self) -> WalkView {
        WalkView { curr_hash: self.curr_hash@, chain: self.bc@ }
    }
}

impl<'a> BlockchainIterator<'a> {
    /// Returns the block where the walk stands and steps to its
    /// predecessor. The walk is over, and `None` is returned, where it
    /// stands at the predecessor of a first block. Where the store holds no
    /// block under the hash at which the walk stands, the step fails with
    /// `StorageCorruption` and the walk is over.
    pub fn next(&mut self) -> (step: Option<Result<Block, LedgerError>>)
        ensures
            final(self)@.chain == old(self)@.chain,
            match step {
                None => old(self)@.curr_hash == GENESIS_PREV_HASH@ && final(self)@ == old(self)@,
                Some(Ok(block)) => {
                    &&& old(self)@.curr_hash != GENESIS_PREV_HASH@
                    &&& spec_block_at(old(self)@.chain.store, old(self)@.curr_hash) == Some(block@)
                    &&& final(self)@.curr_hash == block@.prev_hash
                },
                Some(Err(e)) => {
                    &&& e == LedgerError::StorageCorruption
                    &&& old(self)@.curr_hash != GENESIS_PREV_HASH@
                    &&& spec_block_at(old(self)@.chain.store, old(self)@.curr_hash) is None
                    &&& final(self)@.curr_hash == GENESIS_PREV_HASH@
                },
            },
    {
        if same_text(self.curr_hash.as_str(), GENESIS_PREV_HASH) {
            return None;
        }
        match self.bc.block_at(self.curr_hash.as_str()) {
            Some(block) => {
                self.curr_hash = block.get_prev_hash();
                Some(Ok(block))
            },
            None => {
                self.curr_hash = String::from_str(GENESIS_PREV_HASH);
                Some(Err(LedgerError::StorageCorruption))
            },
        }
    }
}

} // verus!
