//! What holds of the ledger as a whole.
//!
//! Each statement here is proved from the definitions that the contracts of
//! the other modules are written in.

use vstd::prelude::*;
use crate::blockchain::{pool_with, BlockchainView};
use crate::clock::Timestamp;
use crate::commit::{commit_inputs, spend_input};
use crate::db::DbView;
use crate::miner::{is_least_nonce, least_nonce, mined};
use crate::pool::{
    best_place, fee_total, leave_rest, lemma_best_place, select_top, without, EntryView,
};
use crate::signature::signature_valid;
use crate::transactions::{
    inputs_text, outputs_text, signing_digest, BlockView, InputView, OutputView, TxView,
};
use crate::wallet::Wallet;
use crate::verifiers::{
    block_verdict, coinbase_total, fees_total, first_failure, input_value, inputs_total,
    lemma_failure_stays, meets_target, outputs_total, tx_verdict, BlockVerificationState, TxError,
};
use crate::{genesis_hash_of, MINING_REWARD, TXS_BY_BLOCK};

verus! {

/// The digest of an input is determined by the reference it makes, its
/// address, its signature and its place: two inputs without a remembered
/// digest that agree on these have the same digest, whatever else they hold.
pub proof fn law_input_digest_determined(a: InputView, b: InputView)
    requires
        a.hash is None,
        b.hash is None,
        a.previous_tx_hash == b.previous_tx_hash,
        a.output_idx == b.output_idx,
        a.address == b.address,
        a.signature == b.signature,
        a.idx == b.idx,
    ensures
        a.digest() == b.digest(),
{
}

/// The digest of an output is determined by its value, its place, its
/// owner and its binding to the inputs.
pub proof fn law_output_digest_determined(a: OutputView, b: OutputView)
    requires
        a.hash is None,
        b.hash is None,
        a.amount == b.amount,
        a.idx == b.idx,
        a.address == b.address,
        a.input_hash == b.input_hash,
    ensures
        a.digest() == b.digest(),
{
}

/// The digest of a transaction is determined by the hashed fields of its
/// inputs and outputs and by the seconds of its time.
pub proof fn law_tx_digest_determined(a: TxView, b: TxView)
    requires
        a.hash is None,
        b.hash is None,
        a.inputs.len() == b.inputs.len(),
        a.outputs.len() == b.outputs.len(),
        forall|i: int| 0 <= i < a.inputs.len() ==> (#[trigger] a.inputs[i]).text() == b.inputs[i].text(),
        forall|i: int| 0 <= i < a.outputs.len() ==> (#[trigger] a.outputs[i]).text() == b.outputs[i].text(),
        a.time.secs == b.time.secs,
    ensures
        a.digest() == b.digest(),
{
    lemma_inputs_text(a.inputs, b.inputs);
    lemma_outputs_text(a.outputs, b.outputs);
}

/// Inputs with the same texts, place by place, have the same text together.
proof fn lemma_inputs_text(a: Seq<InputView>, b: Seq<InputView>)
    requires
        a.len() == b.len(),
        forall|i: int| 0 <= i < a.len() ==> (#[trigger] a[i]).text() == b[i].text(),
    ensures
        inputs_text(a) == inputs_text(b),
    decreases a.len(),
{
    if a.len() > 0 {
        assert forall|i: int| 0 <= i < a.drop_last().len() implies (#[trigger] a.drop_last()[i]).text()
            == b.drop_last()[i].text() by {
            assert(a.drop_last()[i] == a[i]);
            assert(b.drop_last()[i] == b[i]);
        }
        lemma_inputs_text(a.drop_last(), b.drop_last());
        assert(a.last() == a[a.len() - 1]);
    }
}

/// Outputs with the same texts, place by place, have the same text
/// together.
proof fn lemma_outputs_text(a: Seq<OutputView>, b: Seq<OutputView>)
    requires
        a.len() == b.len(),
        forall|i: int| 0 <= i < a.len() ==> (#[trigger] a[i]).text() == b[i].text(),
    ensures
        outputs_text(a) == outputs_text(b),
    decreases a.len(),
{
    if a.len() > 0 {
        assert forall|i: int| 0 <= i < a.drop_last().len() implies (#[trigger] a.drop_last()[i]).text()
            == b.drop_last()[i].text() by {
            assert(a.drop_last()[i] == a[i]);
            assert(b.drop_last()[i] == b[i]);
        }
        lemma_outputs_text(a.drop_last(), b.drop_last());
        assert(a.last() == a[a.len() - 1]);
    }
}

/// The hash of a block is determined by its nonce, its Merkle root, the
/// hash before it, its height and its time.
pub proof fn law_block_digest_determined(a: BlockView, b: BlockView)
    requires
        a.nonce == b.nonce,
        a.root() == b.root(),
        a.previous_hash == b.previous_hash,
        a.index == b.index,
        a.time == b.time,
    ensures
        a.digest() == b.digest(),
{
}

/// Asking for a digest a second time gives the same digest and changes
/// nothing more; a remembered digest stays whatever becomes of the other
/// fields.
pub proof fn law_remembered_digest_stays(
    input: InputView,
    output: OutputView,
    tx: TxView,
    block: BlockView,
    later_input: InputView,
    later_output: OutputView,
    later_tx: TxView,
    later_block: BlockView,
)
    requires
        later_input.hash == input.hashed().hash,
        later_output.hash == output.hashed().hash,
        tx.digest() is Some,
        later_tx.hash == tx.hashed().hash,
        block.root() is Some,
        later_block.merkel_root == block.built().merkel_root,
    ensures
        input.hashed().digest() == input.digest(),
        input.hashed().hashed() == input.hashed(),
        later_input.digest() == input.digest(),
        output.hashed().digest() == output.digest(),
        output.hashed().hashed() == output.hashed(),
        later_output.digest() == output.digest(),
        tx.hashed().digest() == tx.digest(),
        tx.hashed().hashed() == tx.hashed(),
        later_tx.digest() == tx.digest(),
        block.built().root() == block.root(),
        block.built().digest() == block.digest(),
        block.built().built() == block.built(),
        later_block.root() == block.root(),
{
}

/// A block that is accepted as the successor of a head pays out, in its
/// coinbase, exactly the mining reward and the fees of its other
/// transactions, each of which is accepted.
pub proof fn law_conservation(db: DbView, head: BlockView, block: BlockView)
    requires
        block_verdict(db, head, block) == BlockVerificationState::Success,
    ensures
        fees_total(block.txs, db, block.txs.len() as int) is Some,
        coinbase_total(block.txs) == MINING_REWARD + fees_total(
            block.txs,
            db,
            block.txs.len() as int,
        ).unwrap(),
        forall|i: int| 1 <= i < block.txs.len() ==> tx_verdict(#[trigger] block.txs[i], db) is Ok,
{
    assert forall|i: int| 1 <= i < block.txs.len() implies tx_verdict(#[trigger] block.txs[i], db) is Ok by {
        lemma_fees_need_every_tx(block.txs, db, block.txs.len() as int, i);
    }
}

/// Where the fees up to place `n` have a sum, every transaction from the
/// second up to that place is accepted.
proof fn lemma_fees_need_every_tx(txs: Seq<TxView>, db: DbView, n: int, i: int)
    requires
        1 <= i < n,
        fees_total(txs, db, n) is Some,
    ensures
        tx_verdict(txs[i], db) is Ok,
    decreases n,
{
    if i < n - 1 {
        lemma_fees_need_every_tx(txs, db, n - 1, i);
    }
}

/// Once an output is marked spent, an input that names it is refused as
/// already spent, and so is its transaction: with that very reason if no
/// input before it is refused, and in any case refused.
pub proof fn law_no_double_spend(db: DbView, tx: TxView, i: int)
    requires
        0 <= i < tx.inputs.len(),
        !(i == 0 && tx.inputs[i].previous_tx_hash == genesis_hash_of()),
        db.lookup(tx.inputs[i].previous_tx_hash) is Some,
        tx.inputs[i].output_idx < db.lookup(tx.inputs[i].previous_tx_hash).unwrap().outputs.len(),
    ensures
        ({
            let input = tx.inputs[i];
            let output = db.lookup(input.previous_tx_hash).unwrap().outputs[input.output_idx as int];
            let after = db.mark_spent(output.address, input.previous_tx_hash, output.digest());
            &&& !after.is_unspent(output.address, input.previous_tx_hash, output.digest())
            &&& input_value(tx, after, i) == Err::<u64, TxError>(TxError::AlreadySpent)
            &&& tx_verdict(tx, after) is Err
            &&& first_failure(tx, after, i) is None ==> tx_verdict(tx, after) == Err::<u64, TxError>(
                TxError::AlreadySpent,
            )
        }),
{
    let input = tx.inputs[i];
    let output = db.lookup(input.previous_tx_hash).unwrap().outputs[input.output_idx as int];
    let after = db.mark_spent(output.address, input.previous_tx_hash, output.digest());
    assert(after.lookup(input.previous_tx_hash) == db.lookup(input.previous_tx_hash));
    assert(input_value(tx, after, i) == Err::<u64, TxError>(TxError::AlreadySpent));
    assert(first_failure(tx, after, i + 1) is Some);
    lemma_failure_stays(tx, after, i + 1, tx.inputs.len() as int);
}

/// A block whose hash misses the target is refused for that, whatever else
/// holds of it.
pub proof fn law_off_target_is_refused(db: DbView, head: BlockView, block: BlockView)
    requires
        !meets_target(block.digest()),
    ensures
        block_verdict(db, head, block) == BlockVerificationState::WrongDifficulty,
{
}

/// The block that mining gives has a hash that meets the target.
pub proof fn law_mined_block_meets_target(block: BlockView)
    requires
        mined(block) is Some,
    ensures
        meets_target(mined(block).unwrap().digest()),
{
    let nonce = least_nonce(block).unwrap();
    assert(is_least_nonce(block, nonce));
}

/// A block that the chain takes as the successor of its head makes the
/// chain longer by exactly one, becomes the head, and names the hash of the
/// old head as the one before it. Committing it leaves the chain as it is.
pub proof fn law_linear_extension(chain: BlockchainView, block: BlockView)
    requires
        chain.chain.len() > 0,
        chain.add_outcome(block) is Ok,
        block_verdict(chain.db, chain.chain.last(), block) == BlockVerificationState::Success,
    ensures
        chain.after_add(block).chain.len() == chain.chain.len() + 1,
        chain.after_add(block).chain.last() == block,
        chain.after_add(block).chain.drop_last() == chain.chain,
        Some(chain.after_add(block).chain.last().previous_hash) == chain.chain.last().digest(),
        chain.after_add(block).committed(block).chain == chain.after_add(block).chain,
{
    assert(chain.chain.push(block).drop_last() =~= chain.chain);
}

/// A transaction whose inputs all pass and bring in less than its outputs
/// are worth is refused for insufficient funds.
pub proof fn law_insufficient_funds(tx: TxView, db: DbView)
    requires
        first_failure(tx, db, tx.inputs.len() as int) is None,
        outputs_total(tx.outputs) > inputs_total(tx, db, tx.inputs.len() as int),
    ensures
        tx_verdict(tx, db) == Err::<u64, TxError>(TxError::InsufficientFunds),
{
}

/// An accepted transaction has a fee that is exactly what its inputs bring
/// in beyond what its outputs are worth; the fee is never negative.
pub proof fn law_fee_is_surplus(tx: TxView, db: DbView)
    requires
        tx_verdict(tx, db) is Ok,
    ensures
        tx_verdict(tx, db).unwrap() == inputs_total(tx, db, tx.inputs.len() as int) - outputs_total(
            tx.outputs,
        ),
        inputs_total(tx, db, tx.inputs.len() as int) >= outputs_total(tx.outputs),
{
}

/// A batch holds as many entries as are asked for, or the whole pool if
/// that is less; the rest of the pool is left.
pub proof fn law_batch_size(pool: Seq<EntryView>, count: nat)
    ensures
        select_top(pool, count).len() == if count <= pool.len() {
            count
        } else {
            pool.len()
        },
        select_top(pool, count).len() + leave_rest(pool, count).len() == pool.len(),
    decreases count,
{
    if count > 0 && pool.len() > 0 {
        lemma_best_place(pool);
        law_batch_size(pool.remove(best_place(pool)), (count - 1) as nat);
    }
}

/// The entries that a batch leaves behind are entries of the pool.
pub proof fn lemma_rest_from_pool(pool: Seq<EntryView>, count: nat)
    ensures
        forall|j: int|
            0 <= j < leave_rest(pool, count).len() ==> pool.contains(
                #[trigger] leave_rest(pool, count)[j],
            ),
    decreases count,
{
    if count > 0 && pool.len() > 0 {
        lemma_best_place(pool);
        let best = best_place(pool);
        let smaller = pool.remove(best);
        lemma_rest_from_pool(smaller, (count - 1) as nat);
        assert forall|j: int| 0 <= j < leave_rest(pool, count).len() implies pool.contains(
            #[trigger] leave_rest(pool, count)[j],
        ) by {
            let entry = leave_rest(smaller, (count - 1) as nat)[j];
            assert(smaller.contains(entry));
            let k = choose|k: int| 0 <= k < smaller.len() && smaller[k] == entry;
            if k < best {
                assert(pool[k] == entry);
            } else {
                assert(pool[k + 1] == entry);
            }
        }
    }
}

/// A batch holds the highest fees: no entry that is left behind has a
/// higher fee than an entry of the batch.
pub proof fn law_batch_has_highest_fees(pool: Seq<EntryView>, count: nat)
    ensures
        forall|i: int, j: int|
            #![trigger select_top(pool, count)[i], leave_rest(pool, count)[j]]
            0 <= i < select_top(pool, count).len() && 0 <= j < leave_rest(pool, count).len()
                ==> select_top(pool, count)[i].1 >= leave_rest(pool, count)[j].1,
    decreases count,
{
    if count > 0 && pool.len() > 0 {
        lemma_best_place(pool);
        let best = best_place(pool);
        let smaller = pool.remove(best);
        law_batch_has_highest_fees(smaller, (count - 1) as nat);
        lemma_rest_from_pool(pool, count);
        assert forall|i: int, j: int|
            #![trigger select_top(pool, count)[i], leave_rest(pool, count)[j]]
            0 <= i < select_top(pool, count).len() && 0 <= j < leave_rest(pool, count).len()
                implies select_top(pool, count)[i].1 >= leave_rest(pool, count)[j].1 by {
            let left = leave_rest(pool, count)[j];
            if i == 0 {
                assert(pool.contains(left));
                let k = choose|k: int| 0 <= k < pool.len() && pool[k] == left;
                assert(pool[k].1 <= pool[best].1);
            } else {
                assert(select_top(pool, count)[i] == select_top(smaller, (count - 1) as nat)[i - 1]);
                assert(left == leave_rest(smaller, (count - 1) as nat)[j]);
            }
        }
    }
}

/// A batch is sorted: its fees never rise from one entry to the next.
pub proof fn law_batch_is_sorted(pool: Seq<EntryView>, count: nat)
    ensures
        forall|i: int|
            0 <= i && i + 1 < select_top(pool, count).len() ==> (#[trigger] select_top(pool, count)[i]).1
                >= select_top(pool, count)[i + 1].1,
    decreases count,
{
    if count > 0 && pool.len() > 0 {
        lemma_best_place(pool);
        let best = best_place(pool);
        let smaller = pool.remove(best);
        law_batch_is_sorted(smaller, (count - 1) as nat);
        assert forall|i: int| 0 <= i && i + 1 < select_top(pool, count).len() implies (
        #[trigger] select_top(pool, count)[i]).1 >= select_top(pool, count)[i + 1].1 by {
            let rest = select_top(smaller, (count - 1) as nat);
            assert(select_top(pool, count)[i + 1] == rest[i]);
            if i == 0 {
                assert(count - 1 > 0 && smaller.len() > 0);
                lemma_best_place(smaller);
                let next = best_place(smaller);
                assert(rest[0] == smaller[next]);
                if next < best {
                    assert(smaller[next] == pool[next]);
                } else {
                    assert(smaller[next] == pool[next + 1]);
                }
            } else {
                assert(select_top(pool, count)[i] == rest[i - 1]);
            }
        }
    }
}

/// A batch and what it leaves behind are together the pool, entry for
/// entry: nothing is taken twice, lost or made up.
pub proof fn law_batch_splits_pool(pool: Seq<EntryView>, count: nat)
    ensures
        select_top(pool, count).to_multiset().add(leave_rest(pool, count).to_multiset())
            == pool.to_multiset(),
    decreases count,
{
    broadcast use vstd::multiset::group_multiset_axioms;

    let nothing = Seq::<EntryView>::empty();
    nothing.to_multiset_ensures();
    vstd::multiset::lemma_multiset_empty_len(nothing.to_multiset());
    if count > 0 && pool.len() > 0 {
        lemma_best_place(pool);
        let best = best_place(pool);
        let smaller = pool.remove(best);
        law_batch_splits_pool(smaller, (count - 1) as nat);
        let first = seq![pool[best]];
        let others = select_top(smaller, (count - 1) as nat);
        let rest = leave_rest(smaller, (count - 1) as nat);
        assert(first =~= nothing.push(pool[best]));
        assert(first.to_multiset() =~= nothing.to_multiset().insert(pool[best]));
        vstd::seq_lib::lemma_multiset_commutative(first, others);
        vstd::seq_lib::to_multiset_remove(pool, best);
        pool.to_multiset_ensures();
        assert(pool.contains(pool[best]));
        assert(pool.to_multiset().count(pool[best]) > 0);
        assert(others.to_multiset().add(rest.to_multiset()) == pool.to_multiset().remove(pool[best]));
        let chosen = pool[best];
        let whole = pool.to_multiset();
        let left = (first + others).to_multiset().add(rest.to_multiset());
        assert forall|entry: EntryView| left.count(entry) == whole.count(entry) by {
            assert((first + others).to_multiset().count(entry) == first.to_multiset().count(entry)
                + others.to_multiset().count(entry));
            assert(others.to_multiset().add(rest.to_multiset()).count(entry) == whole.remove(
                chosen,
            ).count(entry));
            assert(first.to_multiset().count(entry) == if entry == chosen {
                1nat
            } else {
                0nat
            });
            assert(whole.remove(chosen).count(entry) == if entry == chosen {
                (whole.count(entry) - 1) as nat
            } else {
                whole.count(entry)
            });
        }
        assert(left =~= whole);
    } else {
        assert(select_top(pool, count) =~= nothing);
        assert(select_top(pool, count).to_multiset().add(leave_rest(pool, count).to_multiset())
            =~= pool.to_multiset());
    }
}

/// Committing a block takes exactly the chosen entries out of the pending
/// ones: what stays are the pending entries that were not chosen.
pub proof fn law_only_batch_leaves_pool(pool: Seq<EntryView>, taken: Seq<EntryView>, entry: EntryView)
    ensures
        without(pool, taken).contains(entry) <==> pool.contains(entry) && !taken.contains(entry),
    decreases pool.len(),
{
    if pool.len() > 0 {
        let shorter = pool.drop_last();
        law_only_batch_leaves_pool(shorter, taken, entry);
        if pool.contains(entry) {
            let k = choose|k: int| 0 <= k < pool.len() && pool[k] == entry;
            if k < pool.len() - 1 {
                assert(shorter[k] == entry);
            }
        }
        if shorter.contains(entry) {
            let k = choose|k: int| 0 <= k < shorter.len() && shorter[k] == entry;
            assert(pool[k] == entry);
        }
        let kept = without(shorter, taken);
        if taken.contains(pool.last()) {
        } else {
            let all = kept.push(pool.last());
            if all.contains(entry) {
                let k = choose|k: int| 0 <= k < all.len() && all[k] == entry;
                if k < kept.len() {
                    assert(kept[k] == entry);
                }
            }
            if kept.contains(entry) {
                let k = choose|k: int| 0 <= k < kept.len() && kept[k] == entry;
                assert(all[k] == entry);
            }
            if entry == pool.last() {
                assert(all[kept.len() as int] == entry);
                assert(pool[pool.len() - 1] == entry);
            }
        }
    }
}

/// Taking entries out of a pool that holds no entry twice leaves a pool
/// that holds no entry twice.
pub proof fn lemma_without_stays_distinct(pool: Seq<EntryView>, taken: Seq<EntryView>)
    requires
        pool.no_duplicates(),
    ensures
        without(pool, taken).no_duplicates(),
    decreases pool.len(),
{
    if pool.len() > 0 {
        let shorter = pool.drop_last();
        assert forall|i: int, j: int| 0 <= i < shorter.len() && 0 <= j < shorter.len() && i != j implies shorter[i]
            != shorter[j] by {
            assert(shorter[i] == pool[i]);
            assert(shorter[j] == pool[j]);
        }
        lemma_without_stays_distinct(shorter, taken);
        if !taken.contains(pool.last()) {
            let kept = without(shorter, taken);
            law_only_batch_leaves_pool(shorter, taken, pool.last());
            if shorter.contains(pool.last()) {
                let k = choose|k: int| 0 <= k < shorter.len() && shorter[k] == pool.last();
                assert(pool[k] == pool[pool.len() - 1]);
            }
            assert(!kept.contains(pool.last()));
            let all = kept.push(pool.last());
            assert forall|i: int, j: int| 0 <= i < all.len() && 0 <= j < all.len() && i != j implies all[i]
                != all[j] by {
                if i < kept.len() && j < kept.len() {
                    assert(all[i] == kept[i]);
                    assert(all[j] == kept[j]);
                } else if i < kept.len() {
                    assert(kept[i] == all[i]);
                    assert(kept.contains(all[i]));
                } else {
                    assert(kept[j] == all[j]);
                    assert(kept.contains(all[j]));
                }
            }
        }
    }
}

/// The pending transactions never hold an entry twice: if they do not
/// before a block or a transaction is offered, a block is committed, mined
/// or built, they do not after it.
pub proof fn law_pending_stay_distinct(
    chain: BlockchainView,
    wallet: Wallet,
    block: BlockView,
    tx: TxView,
    time: Timestamp,
)
    requires
        chain.unconfirmed_txs.no_duplicates(),
    ensures
        chain.after_add(block).unconfirmed_txs.no_duplicates(),
        chain.after_add_tx(tx).unconfirmed_txs.no_duplicates(),
        chain.committed(block).unconfirmed_txs.no_duplicates(),
        chain.mine_and_commit(block).1.unconfirmed_txs.no_duplicates(),
        chain.forced(wallet, time).1.unconfirmed_txs.no_duplicates(),
{
    lemma_without_stays_distinct(chain.unconfirmed_txs, chain.current_block_txs);
    lemma_without_stays_distinct(
        chain.unconfirmed_txs,
        select_top(chain.unconfirmed_txs, TXS_BY_BLOCK as nat),
    );
    if chain.tx_welcome(tx) {
        let entry = (tx.digest().unwrap(), tx_verdict(tx.hashed(), chain.db).unwrap());
        let pool = chain.unconfirmed_txs;
        if !pool.contains(entry) {
            let all = pool.push(entry);
            assert forall|i: int, j: int| 0 <= i < all.len() && 0 <= j < all.len() && i != j implies all[i]
                != all[j] by {
                if i < pool.len() && j < pool.len() {
                    assert(all[i] == pool[i]);
                    assert(all[j] == pool[j]);
                } else if i < pool.len() {
                    assert(pool[i] == all[i]);
                    assert(pool.contains(all[i]));
                } else {
                    assert(pool[j] == all[j]);
                    assert(pool.contains(all[j]));
                }
            }
            assert(pool_with(pool, entry) == all);
        }
    }
}

/// The chain only grows: whatever is offered, mined or built, the blocks
/// that were in the chain stay where they are. A block that is taken
/// becomes the head and nothing stays put aside; a block that is not taken
/// leaves the chain as it was.
pub proof fn law_chain_only_grows(chain: BlockchainView, wallet: Wallet, block: BlockView, time: Timestamp)
    ensures
        chain.chain.is_prefix_of(chain.after_add(block).chain),
        chain.chain.is_prefix_of(chain.mine_and_commit(block).1.chain),
        chain.chain.is_prefix_of(chain.forced(wallet, time).1.chain),
        chain.add_outcome(block) is Ok ==> {
            &&& chain.after_add(block).chain.len() > chain.chain.len()
            &&& chain.after_add(block).chain.last() == block
            &&& chain.after_add(block).fork_blocks == Map::<Seq<u8>, BlockView>::empty()
        },
        chain.add_outcome(block) is Err ==> chain.after_add(block).chain == chain.chain,
{
    lemma_add_keeps_blocks(chain, block);
    match mined(block) {
        Some(found) => {
            lemma_add_keeps_blocks(chain, found);
        },
        None => {},
    }
    match chain.candidate(wallet, time) {
        Ok(candidate) => {
            let under_way = BlockchainView {
                current_block_txs: select_top(chain.unconfirmed_txs, TXS_BY_BLOCK as nat),
                ..chain
            };
            match mined(candidate) {
                Some(found) => {
                    lemma_add_keeps_blocks(under_way, found);
                },
                None => {},
            }
        },
        Err(_) => {},
    }
}

/// Offering a block leaves the blocks of the chain where they are.
proof fn lemma_add_keeps_blocks(chain: BlockchainView, block: BlockView)
    ensures
        chain.chain.is_prefix_of(chain.after_add(block).chain),
{
    let after = chain.after_add(block).chain;
    assert(chain.chain.len() <= after.len());
    assert(chain.chain =~= after.subrange(0, chain.chain.len() as int));
}

/// The block that is built from the pending transactions holds, after its
/// coinbase, exactly the batch of the highest fees, each transaction as the
/// store has it, and its coinbase pays out the mining reward and the fees
/// of the batch. If the block is taken, exactly the batch leaves the
/// pending transactions; if not, they stay as they are.
pub proof fn law_pending_pool_batching(chain: BlockchainView, wallet: Wallet, time: Timestamp)
    requires
        chain.candidate(wallet, time) is Ok,
    ensures
        ({
            let batch = select_top(chain.unconfirmed_txs, TXS_BY_BLOCK as nat);
            let block = chain.candidate(wallet, time).unwrap();
            let after = chain.forced(wallet, time);
            &&& batch.len() == if TXS_BY_BLOCK <= chain.unconfirmed_txs.len() {
                TXS_BY_BLOCK as nat
            } else {
                chain.unconfirmed_txs.len()
            }
            &&& block.txs.len() == batch.len() + 1
            &&& forall|i: int|
                0 <= i < batch.len() ==> #[trigger] block.txs[i + 1] == chain.db.tx_by_hash[batch[i].0]
            &&& coinbase_total(block.txs) == MINING_REWARD + fee_total(batch)
            &&& after.0 is Ok ==> after.1.unconfirmed_txs == without(chain.unconfirmed_txs, batch)
                && after.1.current_block_txs == Seq::<EntryView>::empty()
            &&& after.0 is Err ==> after.1.unconfirmed_txs == chain.unconfirmed_txs
        }),
{
    let batch = select_top(chain.unconfirmed_txs, TXS_BY_BLOCK as nat);
    let block = chain.candidate(wallet, time).unwrap();
    law_batch_size(chain.unconfirmed_txs, TXS_BY_BLOCK as nat);
    let paid = block.txs[0].outputs;
    assert(paid.drop_last().len() == 0);
    assert(outputs_total(paid) == outputs_total(paid.drop_last()) + paid.last().amount);
    lemma_fees_are_not_negative(batch);
    assert(paid.last().amount == MINING_REWARD + fee_total(batch));
    assert(coinbase_total(block.txs) == MINING_REWARD + fee_total(batch));
    assert forall|i: int| 0 <= i < batch.len() implies #[trigger] block.txs[i + 1]
        == chain.db.tx_by_hash[batch[i].0] by {}
    let under_way = BlockchainView { current_block_txs: batch, ..chain };
    let after = chain.forced(wallet, time);
    assert(after == under_way.mine_and_commit(block));
    match mined(block) {
        Some(found) => {
            assert(under_way.after_add(found).unconfirmed_txs == chain.unconfirmed_txs);
            assert(under_way.after_add(found).current_block_txs == batch);
        },
        None => {},
    }
}

/// The fees of a pool do not sum to less than nothing.
proof fn lemma_fees_are_not_negative(pool: Seq<EntryView>)
    ensures
        fee_total(pool) >= 0,
    decreases pool.len(),
{
    if pool.len() > 0 {
        lemma_fees_are_not_negative(pool.drop_last());
    }
}

/// Spending inputs changes nothing but the unspent outputs, and does not
/// make any output unspent.
proof fn lemma_spending_only_spends(db: DbView, inputs: Seq<InputView>, n: int)
    ensures
        commit_inputs(db, inputs, n).tx_by_hash == db.tx_by_hash,
        commit_inputs(db, inputs, n).block_index == db.block_index,
        forall|key: (Seq<u8>, Seq<u8>, Seq<u8>)|
            #[trigger] commit_inputs(db, inputs, n).unspent_outputs.contains_key(key)
                ==> db.unspent_outputs.contains_key(key),
    decreases n,
{
    if n > 0 {
        lemma_spending_only_spends(db, inputs, n - 1);
    }
}

/// Once the inputs of a transaction are committed, every output that one
/// of them names in the store is spent.
pub proof fn law_committed_inputs_are_spent(db: DbView, inputs: Seq<InputView>, i: int)
    requires
        0 <= i < inputs.len(),
        inputs[i].previous_tx_hash != genesis_hash_of(),
        db.lookup(inputs[i].previous_tx_hash) is Some,
        inputs[i].output_idx < db.lookup(inputs[i].previous_tx_hash).unwrap().outputs.len(),
    ensures
        ({
            let input = inputs[i];
            let output = db.lookup(input.previous_tx_hash).unwrap().outputs[input.output_idx as int];
            !commit_inputs(db, inputs, inputs.len() as int).is_unspent(
                output.address,
                input.previous_tx_hash,
                output.digest(),
            )
        }),
{
    let input = inputs[i];
    let output = db.lookup(input.previous_tx_hash).unwrap().outputs[input.output_idx as int];
    let key = (output.address, input.previous_tx_hash, output.digest());
    lemma_spending_only_spends(db, inputs, i);
    let before = commit_inputs(db, inputs, i);
    assert(before.lookup(input.previous_tx_hash) == db.lookup(input.previous_tx_hash));
    assert(commit_inputs(db, inputs, i + 1) == spend_input(before, input));
    assert(!commit_inputs(db, inputs, i + 1).unspent_outputs.contains_key(key));
    lemma_spent_stays_spent(db, inputs, i + 1, inputs.len() as int, key);
}

/// An output that is not unspent after some inputs were committed is not
/// unspent after more of them were.
proof fn lemma_spent_stays_spent(
    db: DbView,
    inputs: Seq<InputView>,
    n: int,
    m: int,
    key: (Seq<u8>, Seq<u8>, Seq<u8>),
)
    requires
        0 <= n <= m,
        !commit_inputs(db, inputs, n).unspent_outputs.contains_key(key),
    ensures
        !commit_inputs(db, inputs, m).unspent_outputs.contains_key(key),
    decreases m - n,
{
    if n < m {
        lemma_spent_stays_spent(db, inputs, n, m - 1, key);
    }
}

/// Every block that is put aside stays under its own hash: if that holds
/// before a block or a transaction is offered, a block is committed, mined
/// or built, it holds after it.
pub proof fn law_forks_stay_keyed(
    chain: BlockchainView,
    wallet: Wallet,
    block: BlockView,
    tx: TxView,
    time: Timestamp,
)
    requires
        chain.forks_by_hash(),
    ensures
        chain.after_add(block).forks_by_hash(),
        chain.after_add_tx(tx).forks_by_hash(),
        chain.committed(block).forks_by_hash(),
        chain.mine_and_commit(block).1.forks_by_hash(),
        chain.forced(wallet, time).1.forks_by_hash(),
{
    lemma_add_keeps_forks_keyed(chain, block);
    match mined(block) {
        Some(found) => {
            lemma_add_keeps_forks_keyed(chain, found);
        },
        None => {},
    }
    match chain.candidate(wallet, time) {
        Ok(candidate) => {
            let under_way = BlockchainView {
                current_block_txs: select_top(chain.unconfirmed_txs, TXS_BY_BLOCK as nat),
                ..chain
            };
            match mined(candidate) {
                Some(found) => {
                    lemma_add_keeps_forks_keyed(under_way, found);
                },
                None => {},
            }
        },
        Err(_) => {},
    }
}

/// Offering a block leaves every block that is put aside under its own
/// hash.
proof fn lemma_add_keeps_forks_keyed(chain: BlockchainView, block: BlockView)
    requires
        chain.forks_by_hash(),
    ensures
        chain.after_add(block).forks_by_hash(),
{
}

/// A block that only fails to follow the head, that follows another block
/// than the head does, and that follows a block that was put aside under its
/// own hash, is taken together with that block: the two become the last two
/// blocks of the chain in this order, linked by hash, on top of the blocks
/// that were there, and nothing stays put aside.
pub proof fn law_fork_merge(chain: BlockchainView, block: BlockView)
    requires
        chain.chain.len() > 0,
        chain.chain.last().digest() != block.digest(),
        block_verdict(chain.db, chain.chain.last(), block) == BlockVerificationState::WrongIdx
            || block_verdict(chain.db, chain.chain.last(), block) == BlockVerificationState::WrongHead
            || block_verdict(chain.db, chain.chain.last(), block) == BlockVerificationState::WrongTime,
        block.previous_hash != chain.chain.last().previous_hash,
        chain.fork_blocks.contains_key(block.previous_hash),
        chain.forks_by_hash(),
    ensures
        chain.add_outcome(block) is Ok,
        ({
            let after = chain.after_add(block).chain;
            let buffered = chain.fork_blocks[block.previous_hash];
            &&& after == chain.chain.push(buffered).push(block)
            &&& after.len() == chain.chain.len() + 2
            &&& after[after.len() - 2] == buffered
            &&& after.last() == block
            &&& Some(after.last().previous_hash) == after[after.len() - 2].digest()
        }),
        chain.after_add(block).fork_blocks == Map::<Seq<u8>, BlockView>::empty(),
{
}

/// The batch of a pool that holds no entry twice holds no entry twice, and
/// each of its entries is an entry of the pool.
pub proof fn law_batch_is_distinct(pool: Seq<EntryView>, count: nat)
    requires
        pool.no_duplicates(),
    ensures
        select_top(pool, count).no_duplicates(),
        forall|i: int|
            0 <= i < select_top(pool, count).len() ==> pool.contains(
                #[trigger] select_top(pool, count)[i],
            ),
{
    broadcast use vstd::multiset::group_multiset_axioms;

    let batch = select_top(pool, count);
    law_batch_splits_pool(pool, count);
    pool.lemma_multiset_has_no_duplicates();
    pool.to_multiset_ensures();
    batch.to_multiset_ensures();
    assert forall|entry: EntryView| batch.to_multiset().contains(entry) implies batch.to_multiset().count(
        entry,
    ) == 1 by {
        assert(pool.to_multiset().count(entry) >= batch.to_multiset().count(entry));
        assert(pool.to_multiset().contains(entry));
    }
    batch.lemma_multiset_has_no_duplicates_conv();
    assert forall|i: int| 0 <= i < batch.len() implies pool.contains(#[trigger] batch[i]) by {
        assert(batch.contains(batch[i]));
        assert(batch.to_multiset().count(batch[i]) > 0);
        assert(pool.to_multiset().count(batch[i]) >= batch.to_multiset().count(batch[i]));
    }
}

/// Where the pending transactions hold no entry twice, committing a block
/// leaves as many of them as there were, less the entries of the batch.
pub proof fn law_commit_leaves_the_rest(pool: Seq<EntryView>, count: nat)
    requires
        pool.no_duplicates(),
    ensures
        without(pool, select_top(pool, count)).len() == pool.len() - select_top(pool, count).len(),
{
    broadcast use vstd::seq_lib::seq_to_set_is_finite;

    let batch = select_top(pool, count);
    let rest = without(pool, batch);
    law_batch_is_distinct(pool, count);
    lemma_without_stays_distinct(pool, batch);
    pool.unique_seq_to_set();
    batch.unique_seq_to_set();
    rest.unique_seq_to_set();
    assert forall|entry: EntryView| rest.to_set().contains(entry) == pool.to_set().difference(
        batch.to_set(),
    ).contains(entry) by {
        law_only_batch_leaves_pool(pool, batch, entry);
    }
    assert(rest.to_set() =~= pool.to_set().difference(batch.to_set()));
    assert forall|entry: EntryView| batch.to_set().contains(entry) implies pool.to_set().contains(
        entry,
    ) by {
        let i = choose|i: int| 0 <= i < batch.len() && batch[i] == entry;
        assert(pool.contains(batch[i]));
    }
    assert(pool.to_set().intersect(batch.to_set()) =~= batch.to_set());
    vstd::set_lib::lemma_set_difference_len(pool.to_set(), batch.to_set());
}

/// An input that names an output of the store that is unspent, and that
/// carries a signature which the owner's key accepts for it, brings in the
/// value of that output.
pub proof fn law_signed_input_is_accepted(tx: TxView, db: DbView, i: int)
    requires
        0 <= i < tx.inputs.len(),
        !(i == 0 && tx.inputs[i].previous_tx_hash == genesis_hash_of()),
        db.lookup(tx.inputs[i].previous_tx_hash) is Some,
        tx.inputs[i].output_idx < db.lookup(tx.inputs[i].previous_tx_hash).unwrap().outputs.len(),
        ({
            let input = tx.inputs[i];
            let output = db.lookup(input.previous_tx_hash).unwrap().outputs[input.output_idx as int];
            &&& db.is_unspent(output.address, input.previous_tx_hash, output.digest())
            &&& signature_valid(
                output.address,
                signing_digest(
                    input.previous_tx_hash,
                    input.output_idx,
                    input.address,
                    input.idx,
                ),
                input.signature,
            )
        }),
    ensures
        input_value(tx, db, i) == Ok::<u64, TxError>(
            db.lookup(tx.inputs[i].previous_tx_hash).unwrap().outputs[tx.inputs[i].output_idx as int].amount,
        ),
{
}

} // verus!
