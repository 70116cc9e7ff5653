//! Unspent outputs: which outputs of a chain an address may still spend,
//! what they add up to, and which of them pay for a transfer.
use vstd::prelude::*;
use vstd::string::StringExecFns;
use crate::block::Block;
use crate::block::BlockView;
use crate::lookup::lemma_first_failing;
use crate::lookup::lemma_first_failing_is;
use crate::lookup::lemma_first_failing_none;
use crate::lookup::same_text;
use crate::lookup::spec_first_failing;
use crate::transaction::Transaction;
use crate::transaction::TransactionView;
use crate::tx::InputView;

verus! {

/// What an [`OutPoint`] holds.
pub struct OutPointView {
    pub txid: Seq<char>,
    pub vout: i64,
    pub value: u64,
}

/// An output of a transaction: the id of the transaction, the index of the
/// output in it, and the amount that the output holds.
#[derive(Debug)]
pub struct OutPoint {
    pub txid: String,
    pub vout: i64,
    pub value: u64,
}

impl View for OutPoint {
    type V = OutPointView;

    open spec fn view(&self) -> OutPointView {
        OutPointView { txid: self.txid@, vout: self.vout, value: self.value }
    }
}

impl DeepView for OutPoint {
    type V = OutPointView;

    open spec fn deep_view(&self) -> OutPointView {
        self@
    }
}

impl Clone for OutPoint {
    fn clone(&self) -> (copy: OutPoint)
        ensures
            copy@ == self@,
    {
        OutPoint { txid: self.txid.clone(), vout: self.vout, value: self.value }
    }
}

/// The transactions of a walk, in the order of the walk: block after block,
/// and within a block in the order in which it lists them.
pub open spec fn spec_chain_transactions(blocks: Seq<BlockView>) -> Seq<TransactionView>
    decreases blocks.len(),
{
    if blocks.len() == 0 {
        Seq::<TransactionView>::empty()
    } else {
        spec_chain_transactions(blocks.drop_last()) + blocks.last().transactions
    }
}

/// The transactions of a walk that starts with `block` are those of
/// `block`, then those of the rest of the walk.
pub proof fn lemma_chain_transactions_prepend(block: BlockView, rest: Seq<BlockView>)
    ensures
        spec_chain_transactions(seq![block] + rest) == block.transactions + spec_chain_transactions(
            rest,
        ),
    decreases rest.len(),
{
    let all = seq![block] + rest;
    if rest.len() == 0 {
        assert(all.drop_last() =~= Seq::<BlockView>::empty());
        assert(spec_chain_transactions(all.drop_last()) =~= Seq::<TransactionView>::empty());
        assert(spec_chain_transactions(all) =~= block.transactions);
        assert(block.transactions + spec_chain_transactions(rest) =~= block.transactions);
    } else {
        lemma_chain_transactions_prepend(block, rest.drop_last());
        assert(all.drop_last() =~= seq![block] + rest.drop_last());
        assert(all.last() == rest.last());
        assert((block.transactions + spec_chain_transactions(rest.drop_last()))
            + rest.last().transactions =~= block.transactions + (spec_chain_transactions(
            rest.drop_last(),
        ) + rest.last().transactions));
    }
}

/// Whether `input` spends output `index` of the transaction `txid` in the
/// name of `address`.
pub open spec fn spec_input_spends(
    input: InputView,
    address: Seq<char>,
    txid: Seq<char>,
    index: int,
) -> bool {
    input.authorized_by(address) && input.txid == txid && input.vout == index
}

/// Whether `tx` spends output `index` of the transaction `txid` in the name
/// of `address`: it is no coinbase transaction and one of its inputs does.
pub open spec fn spec_spends(tx: TransactionView, address: Seq<char>, txid: Seq<char>, index: int) -> bool {
    !tx.is_coinbase() && exists|i: int|
        0 <= i < tx.vin.len() && spec_input_spends(#[trigger] tx.vin[i], address, txid, index)
}

/// Whether one of the first `upto` transactions spends output `index` of the
/// transaction `txid` in the name of `address`.
pub open spec fn spec_spent_by_first(
    txs: Seq<TransactionView>,
    upto: int,
    address: Seq<char>,
    txid: Seq<char>,
    index: int,
) -> bool {
    exists|j: int| 0 <= j < upto && spec_spends(#[trigger] txs[j], address, txid, index)
}

/// Whether output `index` of transaction `k` of a walk is unspent and
/// belongs to `address`: it is locked to `address`, an input can name its
/// index, and no transaction that the walk visits before transaction `k`
/// spends it in the name of `address`.
pub open spec fn spec_unspent(txs: Seq<TransactionView>, k: int, address: Seq<char>, index: int) -> bool {
    &&& 0 <= k < txs.len()
    &&& 0 <= index < txs[k].vout.len()
    &&& index <= i64::MAX
    &&& txs[k].vout[index].locked_to(address)
    &&& !spec_spent_by_first(txs, k, address, txs[k].id, index)
}

/// Output `index` of transaction `k` of a walk.
pub open spec fn spec_out_point(txs: Seq<TransactionView>, k: int, index: int) -> OutPointView {
    OutPointView { txid: txs[k].id, vout: index as i64, value: txs[k].vout[index].value }
}

/// The unspent outputs of `address` among the first `upto` outputs of
/// transaction `k`, in their order.
pub open spec fn spec_unspent_of(txs: Seq<TransactionView>, k: int, address: Seq<char>, upto: int) -> Seq<
    OutPointView,
>
    decreases upto,
{
    if upto <= 0 {
        Seq::<OutPointView>::empty()
    } else if spec_unspent(txs, k, address, upto - 1) {
        spec_unspent_of(txs, k, address, upto - 1).push(spec_out_point(txs, k, upto - 1))
    } else {
        spec_unspent_of(txs, k, address, upto - 1)
    }
}

/// The unspent outputs of `address` in the first `upto` transactions of a
/// walk, in the order of the walk.
pub open spec fn spec_unspent_upto(txs: Seq<TransactionView>, address: Seq<char>, upto: int) -> Seq<
    OutPointView,
>
    decreases upto,
{
    if upto <= 0 {
        Seq::<OutPointView>::empty()
    } else {
        spec_unspent_upto(txs, address, upto - 1) + spec_unspent_of(
            txs,
            upto - 1,
            address,
            txs[upto - 1].vout.len() as int,
        )
    }
}

/// The unspent outputs of `address` in a walk, in the order of the walk.
pub open spec fn spec_unspent_outputs(txs: Seq<TransactionView>, address: Seq<char>) -> Seq<
    OutPointView,
> {
    spec_unspent_upto(txs, address, txs.len() as int)
}

/// The transactions among the first `upto` of a walk that hold an unspent
/// output of `address`, in the order of the walk.
pub open spec fn spec_unspent_transactions_upto(
    txs: Seq<TransactionView>,
    address: Seq<char>,
    upto: int,
) -> Seq<TransactionView>
    decreases upto,
{
    if upto <= 0 {
        Seq::<TransactionView>::empty()
    } else if spec_unspent_of(txs, upto - 1, address, txs[upto - 1].vout.len() as int).len() > 0 {
        spec_unspent_transactions_upto(txs, address, upto - 1).push(txs[upto - 1])
    } else {
        spec_unspent_transactions_upto(txs, address, upto - 1)
    }
}

/// The transactions of a walk that hold an unspent output of `address`, in
/// the order of the walk.
pub open spec fn spec_unspent_transactions(txs: Seq<TransactionView>, address: Seq<char>) -> Seq<
    TransactionView,
> {
    spec_unspent_transactions_upto(txs, address, txs.len() as int)
}

/// The sum of the amounts of a sequence of outputs.
pub open spec fn spec_point_total(points: Seq<OutPointView>) -> int
    decreases points.len(),
{
    if points.len() == 0 {
        0
    } else {
        spec_point_total(points.drop_last()) + points.last().value
    }
}

/// How many of `points` are taken to pay `amount`: as many, from the first
/// on, as it takes for their sum to reach `amount`; all where the sum of
/// all does not reach it.
pub open spec fn spec_selected_len(points: Seq<OutPointView>, amount: int) -> int {
    spec_first_failing(
        |n: int| spec_point_total(points.subrange(0, n)) < amount,
        0,
        points.len() as int,
    )
}

/// The outputs that are taken to pay `amount`.
pub open spec fn spec_selected(points: Seq<OutPointView>, amount: int) -> Seq<OutPointView> {
    points.subrange(0, spec_selected_len(points, amount))
}

/// The balance of `address` in a walk: the sum of its unspent outputs.
pub open spec fn spec_balance(txs: Seq<TransactionView>, address: Seq<char>) -> int {
    spec_point_total(spec_unspent_outputs(txs, address))
}

/// Whether a list of references names output `index` of the transaction
/// `txid`.
pub open spec fn spec_listed(spent: Seq<(Seq<char>, i64)>, txid: Seq<char>, index: int) -> bool {
    exists|e: int| 0 <= e < spent.len() && (#[trigger] spent[e]).0 == txid && spent[e].1 == index
}

/// The selection reaches the amount where the outputs at hand do: the sum
/// of the selected outputs is below `amount` only where the sum of all is.
pub proof fn lemma_selection_suffices(points: Seq<OutPointView>, amount: int)
    ensures
        spec_point_total(points) >= amount ==> spec_point_total(spec_selected(points, amount))
            >= amount,
        spec_point_total(points) < amount ==> spec_selected(points, amount) == points,
{
    let ok = |n: int| spec_point_total(points.subrange(0, n)) < amount;
    lemma_first_failing(ok, 0, points.len() as int);
    let n = spec_selected_len(points, amount);
    assert(points.subrange(0, points.len() as int) =~= points);
    if n < points.len() {
        assert(!ok(n));
    }
    if spec_point_total(points) < amount && n < points.len() {
        lemma_total_grows(points, n);
    }
}

/// The sum of the first `n` outputs is at most the sum of all.
proof fn lemma_total_grows(points: Seq<OutPointView>, n: int)
    requires
        0 <= n <= points.len(),
    ensures
        spec_point_total(points.subrange(0, n)) <= spec_point_total(points),
    decreases points.len() - n,
{
    if n < points.len() {
        lemma_total_grows(points, n + 1);
        assert(points.subrange(0, n + 1).drop_last() =~= points.subrange(0, n));
    } else {
        assert(points.subrange(0, n) =~= points);
    }
}

/// Whether `point` is an unspent output of `address` in a walk: an output
/// of one of its transactions that is locked to `address` and that no
/// transaction visited before that one spends in the name of `address`.
pub open spec fn spec_is_unspent(txs: Seq<TransactionView>, address: Seq<char>, point: OutPointView) -> bool {
    exists|k: int, index: int| #[trigger]
        spec_unspent(txs, k, address, index) && point == spec_out_point(txs, k, index)
}

/// Every output that `spec_unspent_of` lists is an unspent output of
/// `address`.
proof fn lemma_unspent_of(txs: Seq<TransactionView>, k: int, address: Seq<char>, upto: int)
    requires
        0 <= k < txs.len(),
        0 <= upto <= txs[k].vout.len(),
    ensures
        forall|p: int|
            0 <= p < spec_unspent_of(txs, k, address, upto).len() ==> spec_is_unspent(
                txs,
                address,
                #[trigger] spec_unspent_of(txs, k, address, upto)[p],
            ),
    decreases upto,
{
    if upto > 0 {
        lemma_unspent_of(txs, k, address, upto - 1);
        let less = spec_unspent_of(txs, k, address, upto - 1);
        let all = spec_unspent_of(txs, k, address, upto);
        assert forall|p: int| 0 <= p < all.len() implies spec_is_unspent(
            txs,
            address,
            #[trigger] all[p],
        ) by {
            if p < less.len() {
                assert(all[p] == less[p]);
            } else {
                assert(spec_unspent(txs, k, address, upto - 1));
            }
        }
    }
}

/// Every output that `spec_unspent_upto` lists is an unspent output of
/// `address`.
proof fn lemma_unspent_upto(txs: Seq<TransactionView>, address: Seq<char>, upto: int)
    requires
        0 <= upto <= txs.len(),
    ensures
        forall|p: int|
            0 <= p < spec_unspent_upto(txs, address, upto).len() ==> spec_is_unspent(
                txs,
                address,
                #[trigger] spec_unspent_upto(txs, address, upto)[p],
            ),
    decreases upto,
{
    if upto > 0 {
        lemma_unspent_upto(txs, address, upto - 1);
        lemma_unspent_of(txs, upto - 1, address, txs[upto - 1].vout.len() as int);
        let less = spec_unspent_upto(txs, address, upto - 1);
        let last = spec_unspent_of(txs, upto - 1, address, txs[upto - 1].vout.len() as int);
        let all = spec_unspent_upto(txs, address, upto);
        assert forall|p: int| 0 <= p < all.len() implies spec_is_unspent(
            txs,
            address,
            #[trigger] all[p],
        ) by {
            if p < less.len() {
                assert(all[p] == less[p]);
            } else {
                assert(all[p] == last[p - less.len()]);
            }
        }
    }
}

/// No selected output is spent: every output that is selected to pay
/// `amount` for `address` is an output of a transaction of the walk that is
/// locked to `address` and that no transaction visited before it spends in
/// the name of `address`.
pub proof fn lemma_selected_unspent(txs: Seq<TransactionView>, address: Seq<char>, amount: int)
    ensures
        forall|p: int|
            0 <= p < spec_selected(spec_unspent_outputs(txs, address), amount).len()
                ==> spec_is_unspent(
                txs,
                address,
                #[trigger] spec_selected(spec_unspent_outputs(txs, address), amount)[p],
            ),
{
    let points = spec_unspent_outputs(txs, address);
    let ok = |n: int| spec_point_total(points.subrange(0, n)) < amount;
    lemma_first_failing(ok, 0, points.len() as int);
    lemma_unspent_upto(txs, address, txs.len() as int);
    let selected = spec_selected(points, amount);
    assert forall|p: int| 0 <= p < selected.len() implies spec_is_unspent(
        txs,
        address,
        #[trigger] selected[p],
    ) by {
        assert(selected[p] == points[p]);
    }
}

/// Whether the walk visits every transaction that spends in the name of
/// `address` before the transaction whose output it spends.
pub open spec fn spec_spends_come_first(txs: Seq<TransactionView>, address: Seq<char>) -> bool {
    forall|j: int, k: int, index: int|
        0 <= j < txs.len() && 0 <= k < txs.len() && #[trigger] spec_spends(
            txs[j],
            address,
            txs[k].id,
            index,
        ) ==> j < k
}

/// Where the walk visits spending transactions first, no transaction of
/// the walk spends an unspent output: not one visited before it, and not
/// one visited after it.
pub proof fn lemma_unspent_everywhere(
    txs: Seq<TransactionView>,
    address: Seq<char>,
    k: int,
    index: int,
)
    requires
        spec_spends_come_first(txs, address),
        spec_unspent(txs, k, address, index),
    ensures
        forall|j: int| 0 <= j < txs.len() ==> !spec_spends(#[trigger] txs[j], address, txs[k].id, index),
{
    assert forall|j: int| 0 <= j < txs.len() implies !spec_spends(
        #[trigger] txs[j],
        address,
        txs[k].id,
        index,
    ) by {
        if spec_spends(txs[j], address, txs[k].id, index) {
            assert(j < k);
            assert(spec_spent_by_first(txs, k, address, txs[k].id, index));
        }
    }
}

/// Whether `input` names output `index` of the transaction `txid`.
pub open spec fn spec_input_names(input: InputView, txid: Seq<char>, index: int) -> bool {
    input.txid == txid && input.vout == index
}

/// Whether `tx` consumes output `index` of the transaction `txid`: it is no
/// coinbase transaction and one of its inputs names that output, whoever
/// authorised the input.
pub open spec fn spec_names(tx: TransactionView, txid: Seq<char>, index: int) -> bool {
    !tx.is_coinbase() && exists|i: int|
        0 <= i < tx.vin.len() && spec_input_names(#[trigger] tx.vin[i], txid, index)
}

/// Whether input `i` of transaction `j` is rightful towards transaction
/// `k`: where it names an output of transaction `k`, the walk visits
/// transaction `j` before transaction `k`, and the input is authorised by
/// the address that the output is locked to.
pub open spec fn spec_rightful(txs: Seq<TransactionView>, j: int, i: int, k: int) -> bool {
    let input = txs[j].vin[i];
    !txs[j].is_coinbase() && input.txid == txs[k].id && 0 <= input.vout < txs[k].vout.len() ==> j
        < k && forall|address: Seq<char>| #[trigger]
        txs[k].vout[input.vout as int].locked_to(address) ==> input.authorized_by(address)
}

/// Whether a walk is that of a valid chain: no two transactions share an
/// id, and every input that names an output is visited before the
/// transaction that holds the output and is authorised by the owner of the
/// output.
pub open spec fn spec_valid_walk(txs: Seq<TransactionView>) -> bool {
    &&& forall|j: int, k: int|
        0 <= j < k < txs.len() ==> (#[trigger] txs[j]).id != (#[trigger] txs[k]).id
    &&& forall|j: int, i: int, k: int|
        0 <= j < txs.len() && 0 <= i < txs[j].vin.len() && 0 <= k < txs.len()
            ==> #[trigger] spec_rightful(txs, j, i, k)
}

/// In the walk of a valid chain, an output of `address` is unspent exactly
/// where no input of any transaction of the walk names it.
pub proof fn lemma_valid_walk_unspent(
    txs: Seq<TransactionView>,
    address: Seq<char>,
    k: int,
    index: int,
)
    requires
        spec_valid_walk(txs),
        0 <= k < txs.len(),
        0 <= index < txs[k].vout.len(),
        index <= i64::MAX,
        txs[k].vout[index].locked_to(address),
    ensures
        spec_unspent(txs, k, address, index) <==> (forall|j: int|
            0 <= j < txs.len() ==> !spec_names(#[trigger] txs[j], txs[k].id, index)),
{
    let id = txs[k].id;
    if spec_unspent(txs, k, address, index) {
        assert forall|j: int| 0 <= j < txs.len() implies !spec_names(#[trigger] txs[j], id, index) by {
            if spec_names(txs[j], id, index) {
                let i = choose|i: int|
                    0 <= i < txs[j].vin.len() && spec_input_names(#[trigger] txs[j].vin[i], id, index);
                assert(spec_rightful(txs, j, i, k));
                assert(txs[k].vout[txs[j].vin[i].vout as int].locked_to(address));
                assert(spec_input_spends(txs[j].vin[i], address, id, index));
                assert(spec_spends(txs[j], address, id, index));
                assert(spec_spent_by_first(txs, k, address, id, index));
            }
        }
    } else {
        let j = choose|j: int| 0 <= j < k && spec_spends(#[trigger] txs[j], address, id, index);
        let i = choose|i: int|
            0 <= i < txs[j].vin.len() && spec_input_spends(#[trigger] txs[j].vin[i], address, id, index);
        assert(spec_input_names(txs[j].vin[i], id, index));
        assert(spec_names(txs[j], id, index));
    }
}

/// In the walk of a valid chain, no selected output is consumed: no input
/// of any transaction of the walk names an output that is selected to pay
/// `amount` for `address`.
pub proof fn lemma_selected_never_consumed(txs: Seq<TransactionView>, address: Seq<char>, amount: int)
    requires
        spec_valid_walk(txs),
    ensures
        forall|p: int, j: int|
            0 <= p < spec_selected(spec_unspent_outputs(txs, address), amount).len() && 0 <= j
                < txs.len() ==> !spec_names(
                #[trigger] txs[j],
                (#[trigger] spec_selected(spec_unspent_outputs(txs, address), amount)[p]).txid,
                spec_selected(spec_unspent_outputs(txs, address), amount)[p].vout as int,
            ),
{
    let selected = spec_selected(spec_unspent_outputs(txs, address), amount);
    lemma_selected_unspent(txs, address, amount);
    assert forall|p: int, j: int| 0 <= p < selected.len() && 0 <= j < txs.len() implies !spec_names(
        #[trigger] txs[j],
        (#[trigger] selected[p]).txid,
        selected[p].vout as int,
    ) by {
        assert(spec_is_unspent(txs, address, selected[p]));
        let (k, index) = choose|k: int, index: int| #[trigger]
            spec_unspent(txs, k, address, index) && selected[p] == spec_out_point(txs, k, index);
        lemma_valid_walk_unspent(txs, address, k, index);
    }
}

/// Whether one of the first `upto` inputs of `tx` spends output `index` of
/// the transaction `txid` in the name of `address`.
pub open spec fn spec_spent_by_inputs(
    tx: TransactionView,
    upto: int,
    address: Seq<char>,
    txid: Seq<char>,
    index: int,
) -> bool {
    exists|i: int| 0 <= i < upto && spec_input_spends(#[trigger] tx.vin[i], address, txid, index)
}

proof fn lemma_spent_step(
    txs: Seq<TransactionView>,
    k: int,
    address: Seq<char>,
    txid: Seq<char>,
    index: int,
)
    requires
        0 <= k < txs.len(),
    ensures
        spec_spent_by_first(txs, k + 1, address, txid, index) <==> (spec_spent_by_first(
            txs,
            k,
            address,
            txid,
            index,
        ) || spec_spends(txs[k], address, txid, index)),
{
    if spec_spent_by_first(txs, k + 1, address, txid, index) {
        let j = choose|j: int| 0 <= j < k + 1 && spec_spends(#[trigger] txs[j], address, txid, index);
        if j < k {
            assert(spec_spent_by_first(txs, k, address, txid, index));
        }
    }
    if spec_spent_by_first(txs, k, address, txid, index) {
        let j = choose|j: int| 0 <= j < k && spec_spends(#[trigger] txs[j], address, txid, index);
        assert(0 <= j < k + 1 && spec_spends(txs[j], address, txid, index));
    }
    if spec_spends(txs[k], address, txid, index) {
        assert(0 <= k < k + 1 && spec_spends(txs[k], address, txid, index));
    }
}

proof fn lemma_inputs_step(
    tx: TransactionView,
    i: int,
    address: Seq<char>,
    txid: Seq<char>,
    index: int,
)
    requires
        0 <= i < tx.vin.len(),
    ensures
        spec_spent_by_inputs(tx, i + 1, address, txid, index) <==> (spec_spent_by_inputs(
            tx,
            i,
            address,
            txid,
            index,
        ) || spec_input_spends(tx.vin[i], address, txid, index)),
{
    if spec_spent_by_inputs(tx, i + 1, address, txid, index) {
        let j = choose|j: int|
            0 <= j < i + 1 && spec_input_spends(#[trigger] tx.vin[j], address, txid, index);
        if j < i {
            assert(spec_spent_by_inputs(tx, i, address, txid, index));
        }
    }
    if spec_spent_by_inputs(tx, i, address, txid, index) {
        let j = choose|j: int|
            0 <= j < i && spec_input_spends(#[trigger] tx.vin[j], address, txid, index);
        assert(0 <= j < i + 1 && spec_input_spends(tx.vin[j], address, txid, index));
    }
    if spec_input_spends(tx.vin[i], address, txid, index) {
        assert(0 <= i < i + 1 && spec_input_spends(tx.vin[i], address, txid, index));
    }
}

proof fn lemma_listed_step(
    spent: Seq<(Seq<char>, i64)>,
    entry: (Seq<char>, i64),
    txid: Seq<char>,
    index: int,
)
    ensures
        spec_listed(spent.push(entry), txid, index) <==> (spec_listed(spent, txid, index) || (
        entry.0 == txid && entry.1 == index)),
{
    let more = spent.push(entry);
    if spec_listed(more, txid, index) {
        let e = choose|e: int|
            0 <= e < more.len() && (#[trigger] more[e]).0 == txid && more[e].1 == index;
        if e < spent.len() {
            assert(spent[e] == more[e]);
        }
    }
    if spec_listed(spent, txid, index) {
        let e = choose|e: int|
            0 <= e < spent.len() && (#[trigger] spent[e]).0 == txid && spent[e].1 == index;
        assert(more[e] == spent[e]);
    }
    if entry.0 == txid && entry.1 == index {
        assert(more[spent.len() as int] == entry);
    }
}

fn is_listed(spent: &Vec<(String, i64)>, txid: &str, index: i64) -> (yes: bool)
    ensures
        yes == spec_listed(spent.deep_view(), txid@, index as int),
{
    let ghost list = spent.deep_view();
    let mut e: usize = 0;
    while e < spent.len()
        invariant
            e <= spent@.len(),
            list == spent.deep_view(),
            forall|j: int| 0 <= j < e ==> !((#[trigger] list[j]).0 == txid@ && list[j].1 == index),
        decreases spent.len() - e,
    {
        assert(list[e as int] == (spent@[e as int].0@, spent@[e as int].1));
        if spent[e].1 == index && same_text(spent[e].0.as_str(), txid) {
            return true;
        }
        e += 1;
    }
    false
}

/// Lists the transactions of a walk in its order.
pub fn chain_transactions(blocks: &Vec<Block>) -> (txs: Vec<Transaction>)
    ensures
        txs.deep_view() == spec_chain_transactions(blocks.deep_view()),
{
    let ghost all = blocks.deep_view();
    let mut txs: Vec<Transaction> = Vec::new();
    let mut b: usize = 0;
    assert(txs.deep_view() =~= spec_chain_transactions(all.subrange(0, 0)));
    while b < blocks.len()
        invariant
            b <= blocks@.len(),
            all == blocks.deep_view(),
            txs.deep_view() == spec_chain_transactions(all.subrange(0, b as int)),
        decreases blocks.len() - b,
    {
        let listed = blocks[b].get_transactions();
        let ghost before = txs.deep_view();
        let mut t: usize = 0;
        while t < listed.len()
            invariant
                t <= listed@.len(),
                txs.deep_view() == before + listed.deep_view().subrange(0, t as int),
            decreases listed.len() - t,
        {
            let ghost seen = txs.deep_view();
            let copy = listed[t].clone();
            txs.push(copy);
            assert(txs.deep_view() =~= seen.push(copy@));
            assert(txs.deep_view() =~= before + listed.deep_view().subrange(0, t + 1));
            t += 1;
        }
        proof {
            assert(listed.deep_view().subrange(0, listed@.len() as int) =~= listed.deep_view());
            let next = all.subrange(0, b + 1);
            assert(next.drop_last() =~= all.subrange(0, b as int));
            assert(next.last() == blocks@[b as int]@);
        }
        b += 1;
    }
    assert(all.subrange(0, all.len() as int) =~= all);
    txs
}

fn scan(txs: &Vec<Transaction>, address: &str) -> (found: (Vec<OutPoint>, Vec<Transaction>))
    ensures
        found.0.deep_view() == spec_unspent_outputs(txs.deep_view(), address@),
        found.1.deep_view() == spec_unspent_transactions(txs.deep_view(), address@),
{
    let ghost all = txs.deep_view();
    let ghost who = address@;
    let mut points: Vec<OutPoint> = Vec::new();
    let mut holders: Vec<Transaction> = Vec::new();
    let mut spent: Vec<(String, i64)> = Vec::new();
    let mut k: usize = 0;
    assert(points.deep_view() =~= spec_unspent_upto(all, who, 0));
    assert(holders.deep_view() =~= spec_unspent_transactions_upto(all, who, 0));
    assert forall|txid: Seq<char>, index: int|
        #![trigger spec_listed(spent.deep_view(), txid, index)]
        #![trigger spec_spent_by_first(all, 0, who, txid, index)]
        spec_listed(spent.deep_view(), txid, index) <==> spec_spent_by_first(
            all,
            0,
            who,
            txid,
            index,
        ) by {}
    while k < txs.len()
        invariant
            k <= txs@.len(),
            all == txs.deep_view(),
            who == address@,
            points.deep_view() == spec_unspent_upto(all, who, k as int),
            holders.deep_view() == spec_unspent_transactions_upto(all, who, k as int),
            forall|txid: Seq<char>, index: int|
                #![trigger spec_listed(spent.deep_view(), txid, index)]
                #![trigger spec_spent_by_first(all, k as int, who, txid, index)]
                spec_listed(spent.deep_view(), txid, index) <==> spec_spent_by_first(
                    all,
                    k as int,
                    who,
                    txid,
                    index,
                ),
        decreases txs.len() - k,
    {
        let tx = &txs[k];
        let ghost view = tx@;
        assert(view == all[k as int]);
        let id = tx.get_id();
        let outs = tx.outs();
        let mut own: Vec<OutPoint> = Vec::new();
        let mut index: usize = 0;
        assert(own.deep_view() =~= spec_unspent_of(all, k as int, who, 0));
        while index < outs.len()
            invariant
                index <= outs@.len(),
                k < txs@.len(),
                all == txs.deep_view(),
                who == address@,
                view == all[k as int],
                id@ == view.id,
                outs.deep_view() == view.vout,
                own.deep_view() == spec_unspent_of(all, k as int, who, index as int),
                forall|txid: Seq<char>, index: int|
                    #![trigger spec_listed(spent.deep_view(), txid, index)]
                    #![trigger spec_spent_by_first(all, k as int, who, txid, index)]
                    spec_listed(spent.deep_view(), txid, index) <==> spec_spent_by_first(
                        all,
                        k as int,
                        who,
                        txid,
                        index,
                    ),
            decreases outs.len() - index,
        {
            assert(outs.deep_view()[index as int] == outs@[index as int]@);
            let eligible = index as u64 <= i64::MAX as u64 && outs[index].can_be_unlocked_with(
                String::from_str(address),
            ) && !is_listed(&spent, id.as_str(), index as i64);
            assert(eligible == spec_unspent(all, k as int, who, index as int));
            if eligible {
                let point = OutPoint {
                    txid: id.clone(),
                    vout: index as i64,
                    value: outs[index].get_value(),
                };
                let ghost seen = own.deep_view();
                assert(point@ == spec_out_point(all, k as int, index as int));
                own.push(point);
                assert(own.deep_view() =~= seen.push(spec_out_point(all, k as int, index as int)));
            }
            index += 1;
        }
        if own.len() > 0 {
            let ghost seen = holders.deep_view();
            let copy = tx.clone();
            holders.push(copy);
            assert(holders.deep_view() =~= seen.push(view));
        }
        let ghost before = points.deep_view();
        let ghost added = own.deep_view();
        points.append(&mut own);
        assert(points.deep_view() =~= before + added);
        if !tx.is_coinbase() {
            let ins = tx.ins();
            let mut i: usize = 0;
            assert forall|txid: Seq<char>, index: int|
                #![trigger spec_listed(spent.deep_view(), txid, index)]
                spec_listed(spent.deep_view(), txid, index) <==> (spec_spent_by_first(
                    all,
                    k as int,
                    who,
                    txid,
                    index,
                ) || spec_spent_by_inputs(view, 0, who, txid, index)) by {}
            while i < ins.len()
                invariant
                    i <= ins@.len(),
                    k < txs@.len(),
                    all == txs.deep_view(),
                    who == address@,
                    view == all[k as int],
                    ins.deep_view() == view.vin,
                    forall|txid: Seq<char>, index: int|
                        #![trigger spec_listed(spent.deep_view(), txid, index)]
                        spec_listed(spent.deep_view(), txid, index) <==> (spec_spent_by_first(
                            all,
                            k as int,
                            who,
                            txid,
                            index,
                        ) || spec_spent_by_inputs(view, i as int, who, txid, index)),
                decreases ins.len() - i,
            {
                assert(ins.deep_view()[i as int] == ins@[i as int]@);
                let ghost listed = spent.deep_view();
                let ghost input = view.vin[i as int];
                if ins[i].can_be_unlocked_with(String::from_str(address)) {
                    let entry = (ins[i].get_txid(), ins[i].get_vout());
                    let ghost model = (entry.0@, entry.1);
                    spent.push(entry);
                    assert(spent.deep_view() =~= listed.push(model));
                    assert forall|txid: Seq<char>, index: int|
                        #![trigger spec_listed(spent.deep_view(), txid, index)]
                        spec_listed(spent.deep_view(), txid, index) <==> (spec_spent_by_first(
                            all,
                            k as int,
                            who,
                            txid,
                            index,
                        ) || spec_spent_by_inputs(view, i + 1, who, txid, index)) by {
                        lemma_listed_step(listed, model, txid, index);
                        lemma_inputs_step(view, i as int, who, txid, index);
                        assert(spec_listed(listed, txid, index) <==> (spec_spent_by_first(
                            all,
                            k as int,
                            who,
                            txid,
                            index,
                        ) || spec_spent_by_inputs(view, i as int, who, txid, index)));
                    }
                } else {
                    assert forall|txid: Seq<char>, index: int|
                        #![trigger spec_listed(spent.deep_view(), txid, index)]
                        spec_listed(spent.deep_view(), txid, index) <==> (spec_spent_by_first(
                            all,
                            k as int,
                            who,
                            txid,
                            index,
                        ) || spec_spent_by_inputs(view, i + 1, who, txid, index)) by {
                        lemma_inputs_step(view, i as int, who, txid, index);
                    }
                }
                i += 1;
            }
        }
        assert forall|txid: Seq<char>, index: int|
            #![trigger spec_listed(spent.deep_view(), txid, index)]
            #![trigger spec_spent_by_first(all, k + 1, who, txid, index)]
            spec_listed(spent.deep_view(), txid, index) <==> spec_spent_by_first(
                all,
                k + 1,
                who,
                txid,
                index,
            ) by {
            lemma_spent_step(all, k as int, who, txid, index);
            if view.is_coinbase() {
                assert(spec_listed(spent.deep_view(), txid, index) <==> spec_spent_by_first(
                    all,
                    k as int,
                    who,
                    txid,
                    index,
                ));
            } else {
                assert(spec_listed(spent.deep_view(), txid, index) <==> (spec_spent_by_first(
                    all,
                    k as int,
                    who,
                    txid,
                    index,
                ) || spec_spent_by_inputs(view, view.vin.len() as int, who, txid, index)));
                assert(spec_spent_by_inputs(view, view.vin.len() as int, who, txid, index)
                    == spec_spends(view, who, txid, index));
            }
        }
        k += 1;
    }
    (points, holders)
}

/// Lists the unspent outputs of `address` in a walk, in the order of the
/// walk: each output that is locked to `address` and that no transaction
/// visited before its own spends in the name of `address`.
pub fn unspent_outputs(txs: &Vec<Transaction>, address: &str) -> (points: Vec<OutPoint>)
    ensures
        points.deep_view() == spec_unspent_outputs(txs.deep_view(), address@),
{
    scan(txs, address).0
}

/// Lists the transactions of a walk that hold an unspent output of
/// `address`, in the order of the walk.
pub fn unspent_transactions(txs: &Vec<Transaction>, address: &str) -> (holders: Vec<Transaction>)
    ensures
        holders.deep_view() == spec_unspent_transactions(txs.deep_view(), address@),
{
    scan(txs, address).1
}

/// Adds up the amounts of a list of outputs.
pub fn point_total(points: &Vec<OutPoint>) -> (total: u128)
    ensures
        total == spec_point_total(points.deep_view()),
{
    let ghost all = points.deep_view();
    let mut total: u128 = 0;
    let mut i: usize = 0;
    while i < points.len()
        invariant
            i <= points@.len(),
            all == points.deep_view(),
            total == spec_point_total(all.subrange(0, i as int)),
            total <= i * u64::MAX,
        decreases points.len() - i,
    {
        proof {
            let next = all.subrange(0, i + 1);
            assert(next.drop_last() =~= all.subrange(0, i as int));
            assert(next.last() == points@[i as int]@);
        }
        total = total + points[i].value as u128;
        i += 1;
    }
    assert(all.subrange(0, all.len() as int) =~= all);
    total
}

/// Selects the outputs that pay `amount`: takes `points` from the first on
/// until their sum reaches `amount`, and returns that sum with the outputs
/// taken. Where the sum of all does not reach `amount`, all are taken, and
/// the sum returned is below `amount`.
pub fn select_outputs(points: &Vec<OutPoint>, amount: u64) -> (selection: (u128, Vec<OutPoint>))
    ensures
        selection.1.deep_view() == spec_selected(points.deep_view(), amount as int),
        selection.0 == spec_point_total(selection.1.deep_view()),
        selection.0 >= amount <==> spec_point_total(points.deep_view()) >= amount,
        selection.0 <= amount + u64::MAX,
{
    let ghost all = points.deep_view();
    let ghost ok = |n: int| spec_point_total(all.subrange(0, n)) < amount as int;
    let mut accumulated: u128 = 0;
    let mut selected: Vec<OutPoint> = Vec::new();
    let mut n: usize = 0;
    assert(selected.deep_view() =~= all.subrange(0, 0));
    while n < points.len() && accumulated < amount as u128
        invariant
            n <= points@.len(),
            all == points.deep_view(),
            ok == (|n: int| spec_point_total(all.subrange(0, n)) < amount as int),
            selected.deep_view() == all.subrange(0, n as int),
            accumulated == spec_point_total(all.subrange(0, n as int)),
            accumulated <= amount + u64::MAX,
            forall|j: int| 0 <= j < n ==> #[trigger] ok(j),
        decreases points.len() - n,
    {
        assert(ok(n as int));
        proof {
            let next = all.subrange(0, n + 1);
            assert(next.drop_last() =~= all.subrange(0, n as int));
            assert(next.last() == points@[n as int]@);
        }
        let ghost seen = selected.deep_view();
        let copy = points[n].clone();
        accumulated = accumulated + copy.value as u128;
        selected.push(copy);
        assert(selected.deep_view() =~= seen.push(points@[n as int]@));
        assert(selected.deep_view() =~= all.subrange(0, n + 1));
        n += 1;
    }
    proof {
        if n < points.len() {
            assert(!ok(n as int));
            lemma_first_failing_is(ok, 0, n as int, all.len() as int);
        } else {
            lemma_first_failing_none(ok, 0, all.len() as int);
        }
        lemma_selection_suffices(all, amount as int);
    }
    (accumulated, selected)
}

} // verus!
