//! What a committed block does to the store.
//!
//! Each transaction of the block is recorded under its hash, its outputs
//! become unspent, and the outputs that its inputs name become spent. A
//! transaction without a hash is passed over.

use vstd::prelude::*;
use crate::db::{Db, DbView};
use crate::encoding::{copy_bytes, same_bytes};
use crate::transactions::{Block, BlockView, Input, InputView, OutputView, Tx, TxView};
use crate::{genesis_hash, genesis_hash_of};

verus! {

/// The store after the first `n` of the `outputs` of the transaction with
/// hash `tx_hash` were marked unspent.
pub open spec fn commit_outputs(db: DbView, tx_hash: Seq<u8>, outputs: Seq<OutputView>, n: int) -> DbView
    decreases n,
{
    if n <= 0 {
        db
    } else {
        commit_outputs(db, tx_hash, outputs, n - 1).mark_unspent(
            outputs[n - 1].address,
            tx_hash,
            outputs[n - 1].digest(),
            outputs[n - 1].amount,
        )
    }
}

/// The store after the output that `input` names was marked spent. An
/// input that names the genesis hash, or an output that the store does not
/// know, changes nothing.
pub open spec fn spend_input(db: DbView, input: InputView) -> DbView {
    if input.previous_tx_hash == genesis_hash_of() {
        db
    } else {
        match db.lookup(input.previous_tx_hash) {
            Some(source) => {
                if input.output_idx < source.outputs.len() {
                    let output = source.outputs[input.output_idx as int];
                    db.mark_spent(output.address, input.previous_tx_hash, output.digest())
                } else {
                    db
                }
            },
            None => db,
        }
    }
}

/// The store after the first `n` of `inputs` spent what they name.
pub open spec fn commit_inputs(db: DbView, inputs: Seq<InputView>, n: int) -> DbView
    decreases n,
{
    if n <= 0 {
        db
    } else {
        spend_input(commit_inputs(db, inputs, n - 1), inputs[n - 1])
    }
}

/// The store after `tx` was committed: recorded, its outputs unspent, the
/// outputs named by its inputs spent.
pub open spec fn commit_tx(db: DbView, tx: TxView) -> DbView {
    match tx.digest() {
        Some(tx_hash) => commit_inputs(
            commit_outputs(db.record(tx), tx_hash, tx.outputs, tx.outputs.len() as int),
            tx.inputs,
            tx.inputs.len() as int,
        ),
        None => db,
    }
}

/// The store after the first `n` of `txs` were committed, in order.
pub open spec fn commit_txs(db: DbView, txs: Seq<TxView>, n: int) -> DbView
    decreases n,
{
    if n <= 0 {
        db
    } else {
        commit_tx(commit_txs(db, txs, n - 1), txs[n - 1])
    }
}

/// The store after `block` was committed: its height noted, and its
/// transactions committed in order.
pub open spec fn commit_block(db: DbView, block: BlockView) -> DbView {
    commit_txs(DbView { block_index: block.index, ..db }, block.txs, block.txs.len() as int)
}

/// Marks the output that `input` names as spent.
pub fn apply_input(db: &mut Db, input: &Input)
    ensures
        final(db)@ == spend_input(old(db)@, input@),
{
    let genesis = genesis_hash();
    if same_bytes(input.previous_tx_hash.as_slice(), genesis.as_slice()) {
        return ;
    }
    let named = match db.lookup_tx(&input.previous_tx_hash) {
        Some(source) => {
            if input.output_idx < source.outputs.len() {
                let output = &source.outputs[input.output_idx];
                proof {
                    assert(source@.outputs[input.output_idx as int] == output@);
                }
                Some((copy_bytes(output.address.as_slice()), output.digest()))
            } else {
                None
            }
        },
        None => None,
    };
    match named {
        Some((owner, output_hash)) => {
            db.mark_output_spent(
                owner.as_slice(),
                input.previous_tx_hash.as_slice(),
                output_hash.as_slice(),
            );
        },
        None => {},
    }
}

/// Commits `tx` to the store.
pub fn apply_tx(db: &mut Db, tx: &Tx)
    ensures
        final(db)@ == commit_tx(old(db)@, tx@),
{
    let tx_hash = match tx.digest() {
        Some(tx_hash) => tx_hash,
        None => {
            return ;
        },
    };
    let _ = db.record_committed_tx(tx);
    let mut i: usize = 0;
    while i < tx.outputs.len()
        invariant
            i <= tx.outputs@.len(),
            tx@.outputs.len() == tx.outputs@.len(),
            db@ == commit_outputs(old(db)@.record(tx@), tx_hash@, tx@.outputs, i as int),
        decreases tx.outputs@.len() - i,
    {
        let output = &tx.outputs[i];
        proof {
            assert(tx@.outputs[i as int] == output@);
        }
        let output_hash = output.digest();
        db.mark_output_unspent(
            output.address.as_slice(),
            tx_hash.as_slice(),
            output_hash.as_slice(),
            output.amount,
        );
        i += 1;
    }
    let ghost with_outputs = db@;
    let mut j: usize = 0;
    while j < tx.inputs.len()
        invariant
            j <= tx.inputs@.len(),
            tx@.inputs.len() == tx.inputs@.len(),
            db@ == commit_inputs(with_outputs, tx@.inputs, j as int),
        decreases tx.inputs@.len() - j,
    {
        proof {
            assert(tx@.inputs[j as int] == tx.inputs@[j as int]@);
        }
        apply_input(db, &tx.inputs[j]);
        j += 1;
    }
}

/// Commits `block` to the store.
pub fn apply_block(db: &mut Db, block: &Block)
    ensures
        final(db)@ == commit_block(old(db)@, block@),
{
    db.block_index = block.index;
    let ghost start = db@;
    let mut i: usize = 0;
    while i < block.txs.len()
        invariant
            i <= block.txs@.len(),
            block@.txs.len() == block.txs@.len(),
            db@ == commit_txs(start, block@.txs, i as int),
        decreases block.txs@.len() - i,
    {
        proof {
            assert(block@.txs[i as int] == block.txs@[i as int]@);
        }
        apply_tx(db, &block.txs[i]);
        i += 1;
    }
}

} // verus!
