//! The rules that a transaction and a block must meet.

use vstd::prelude::*;
use crate::db::{Db, DbView};
use crate::encoding::same_bytes;
use crate::signature::{check_signature, signature_valid};
use crate::transactions::{
    compute_signing_digest, memo_view, output_views, signing_digest, tx_views, Block, BlockView,
    Output, OutputView, Tx, TxView,
};
use crate::{genesis_hash, genesis_hash_of, MINING_REWARD};

verus! {

/// Why a transaction is refused.
#[derive(Clone, Copy, Debug, PartialEq, Eq, Structural)]
pub enum TxError {
    /// An input names a transaction that is not in the store, or an output
    /// that the named transaction does not have.
    MissingReference,
    /// An input names an output that is not unspent.
    AlreadySpent,
    /// The signature of an input does not fit the owner of the output.
    BadSignature,
    /// The outputs are worth more than the inputs.
    InsufficientFunds,
    /// The inputs exceed the outputs by more than 64 bits can hold.
    FeeOverflow,
}

/// What input `i` of `tx` brings in, or why it is refused. The first input
/// brings the mining reward if it names the genesis hash. Any other input
/// brings the value of the output it names, which must be in the store,
/// unspent, and signed for by its owner.
pub open spec fn input_value(tx: TxView, db: DbView, i: int) -> Result<u64, TxError> {
    let input = tx.inputs[i];
    if i == 0 && input.previous_tx_hash == genesis_hash_of() {
        Ok(MINING_REWARD)
    } else {
        match db.lookup(input.previous_tx_hash) {
            None => Err(TxError::MissingReference),
            Some(source) => {
                if input.output_idx >= source.outputs.len() {
                    Err(TxError::MissingReference)
                } else {
                    let output = source.outputs[input.output_idx as int];
                    if !db.is_unspent(output.address, input.previous_tx_hash, output.digest()) {
                        Err(TxError::AlreadySpent)
                    } else if !signature_valid(
                        output.address,
                        signing_digest(
                            input.previous_tx_hash,
                            input.output_idx,
                            input.address,
                            input.idx,
                        ),
                        input.signature,
                    ) {
                        Err(TxError::BadSignature)
                    } else {
                        Ok(output.amount)
                    }
                }
            },
        }
    }
}

/// Why the first of the first `n` inputs that is refused is refused, if one
/// of them is.
pub open spec fn first_failure(tx: TxView, db: DbView, n: int) -> Option<TxError>
    decreases n,
{
    if n <= 0 {
        None
    } else {
        match first_failure(tx, db, n - 1) {
            Some(error) => Some(error),
            None => match input_value(tx, db, n - 1) {
                Ok(_) => None,
                Err(error) => Some(error),
            },
        }
    }
}

/// What the first `n` inputs bring in together, counting a refused input as
/// nothing.
pub open spec fn inputs_total(tx: TxView, db: DbView, n: int) -> int
    decreases n,
{
    if n <= 0 {
        0
    } else {
        inputs_total(tx, db, n - 1) + match input_value(tx, db, n - 1) {
            Ok(amount) => amount as int,
            Err(_) => 0,
        }
    }
}

/// The sum of the values of `outputs`.
pub open spec fn outputs_total(outputs: Seq<OutputView>) -> int
    decreases outputs.len(),
{
    if outputs.len() == 0 {
        0
    } else {
        outputs_total(outputs.drop_last()) + outputs.last().amount
    }
}

/// The verdict on a transaction: its fee, or why it is refused. Inputs are
/// checked in order and the first refusal decides. If all pass, the fee is
/// what the inputs bring in beyond the sum of the outputs.
pub open spec fn tx_verdict(tx: TxView, db: DbView) -> Result<u64, TxError> {
    match first_failure(tx, db, tx.inputs.len() as int) {
        Some(error) => Err(error),
        None => {
            let total_in = inputs_total(tx, db, tx.inputs.len() as int);
            let total_out = outputs_total(tx.outputs);
            if total_in < total_out {
                Err(TxError::InsufficientFunds)
            } else if total_in - total_out > u64::MAX {
                Err(TxError::FeeOverflow)
            } else {
                Ok((total_in - total_out) as u64)
            }
        },
    }
}

/// The sum of the values of `outputs`.
pub fn sum_outputs(outputs: &Vec<Output>) -> (total: u128)
    ensures
        total == outputs_total(output_views(outputs@)),
{
    let ghost views = output_views(outputs@);
    let mut total: u128 = 0;
    let mut i: usize = 0;
    while i < outputs.len()
        invariant
            i <= outputs@.len(),
            views == output_views(outputs@),
            total == outputs_total(views.take(i as int)),
            total <= i * 0xffff_ffff_ffff_ffff,
        decreases outputs@.len() - i,
    {
        proof {
            let next = views.take(i + 1);
            assert(next.drop_last() == views.take(i as int));
            assert(next.last() == outputs@[i as int]@);
        }
        total = total + outputs[i].amount as u128;
        i += 1;
    }
    proof {
        assert(views.take(i as int) == views);
    }
    total
}

/// Checks transactions against a store.
#[derive(Debug, Default)]
pub struct TxVerifier {}

impl TxVerifier {
    /// What input `i` of `tx` brings in, or why it is refused.
    fn check_input(tx: &Tx, db: &Db, i: usize) -> (value: Result<u64, TxError>)
        requires
            i < tx.inputs@.len(),
        ensures
            value == input_value(tx@, db@, i as int),
    {
        let input = &tx.inputs[i];
        proof {
            assert(tx@.inputs[i as int] == input@);
        }
        if i == 0 {
            let genesis = genesis_hash();
            if same_bytes(input.previous_tx_hash.as_slice(), genesis.as_slice()) {
                return Ok(MINING_REWARD);
            }
        }
        match db.lookup_tx(&input.previous_tx_hash) {
            None => Err(TxError::MissingReference),
            Some(source) => {
                if input.output_idx >= source.outputs.len() {
                    return Err(TxError::MissingReference);
                }
                let output = &source.outputs[input.output_idx];
                proof {
                    assert(source@.outputs[input.output_idx as int] == output@);
                }
                let output_hash = output.digest();
                if !db.is_unspent(
                    output.address.as_slice(),
                    input.previous_tx_hash.as_slice(),
                    output_hash.as_slice(),
                ) {
                    return Err(TxError::AlreadySpent);
                }
                let message = compute_signing_digest(
                    input.previous_tx_hash.as_slice(),
                    input.output_idx,
                    input.address.as_str(),
                    input.idx,
                );
                if !check_signature(
                    output.address.as_slice(),
                    message.as_slice(),
                    input.signature.as_slice(),
                ) {
                    return Err(TxError::BadSignature);
                }
                Ok(output.amount)
            },
        }
    }

    /// The fee of `tx`, or why it is refused.
    pub fn verify(&self, tx: &Tx, db: &Db) -> (verdict: Result<u64, TxError>)
        ensures
            verdict == tx_verdict(tx@, db@),
    {
        let mut total_in: u128 = 0;
        let mut i: usize = 0;
        while i < tx.inputs.len()
            invariant
                i <= tx.inputs@.len(),
                tx@.inputs.len() == tx.inputs@.len(),
                first_failure(tx@, db@, i as int) is None,
                total_in == inputs_total(tx@, db@, i as int),
                total_in <= i * 0xffff_ffff_ffff_ffff,
            decreases tx.inputs@.len() - i,
        {
            match TxVerifier::check_input(tx, db, i) {
                Ok(amount) => {
                    total_in = total_in + amount as u128;
                },
                Err(error) => {
                    proof {
                        lemma_failure_stays(tx@, db@, i as int + 1, tx.inputs@.len() as int);
                    }
                    return Err(error);
                },
            }
            i += 1;
        }
        let total_out = sum_outputs(&tx.outputs);
        if total_in < total_out {
            Err(TxError::InsufficientFunds)
        } else if total_in - total_out > u64::MAX as u128 {
            Err(TxError::FeeOverflow)
        } else {
            Ok((total_in - total_out) as u64)
        }
    }
}

/// Once one of the first `n` inputs is refused, looking at more inputs does
/// not change which refusal comes first.
pub proof fn lemma_failure_stays(tx: TxView, db: DbView, n: int, m: int)
    requires
        n <= m,
        first_failure(tx, db, n) is Some,
    ensures
        first_failure(tx, db, m) == first_failure(tx, db, n),
    decreases m - n,
{
    if n < m {
        lemma_failure_stays(tx, db, n, m - 1);
    }
}

/// The outcome of checking a block against the head of a chain.
#[derive(Clone, Copy, Debug, PartialEq, Eq, Structural)]
pub enum BlockVerificationState {
    /// The block extends the head.
    Success,
    /// The hash of the block misses the target.
    WrongDifficulty,
    /// A transaction of the block is refused, or the coinbase does not pay
    /// out exactly the mining reward and the fees.
    WrongRewardSum,
    /// The block is not higher than the head.
    WrongIdx,
    /// The block does not name the hash of the head as the one before it.
    WrongHead,
    /// The block is older than the head.
    WrongTime,
}

/// Whether a hash meets the proof-of-work target: its first byte is zero and
/// its second byte at most 15. No hash meets nothing.
pub open spec fn meets_target(hash: Option<Seq<u8>>) -> bool {
    match hash {
        Some(hash) => hash.len() >= 2 && hash[0] == 0 && hash[1] <= 0x0f,
        None => false,
    }
}

/// The sum of the fees of the transactions of `txs` from the second up to,
/// but without, place `n`; none if one of them is refused.
pub open spec fn fees_total(txs: Seq<TxView>, db: DbView, n: int) -> Option<int>
    decreases n,
{
    if n <= 1 {
        Some(0)
    } else {
        match fees_total(txs, db, n - 1) {
            None => None,
            Some(fees) => match tx_verdict(txs[n - 1], db) {
                Ok(fee) => Some(fees + fee),
                Err(_) => None,
            },
        }
    }
}

/// What the coinbase, the first transaction of `txs`, pays out.
pub open spec fn coinbase_total(txs: Seq<TxView>) -> int {
    if txs.len() == 0 {
        0
    } else {
        outputs_total(txs[0].outputs)
    }
}

/// Whether every transaction after the coinbase is accepted and the
/// coinbase pays out exactly the mining reward and their fees.
pub open spec fn reward_balanced(txs: Seq<TxView>, db: DbView) -> bool {
    match fees_total(txs, db, txs.len() as int) {
        Some(fees) => coinbase_total(txs) == MINING_REWARD + fees,
        None => false,
    }
}

/// The verdict on `block` as the successor of `head`, with the store `db`.
/// The checks are made in this order and the first that fails decides.
pub open spec fn block_verdict(db: DbView, head: BlockView, block: BlockView) -> BlockVerificationState {
    if !meets_target(block.digest()) {
        BlockVerificationState::WrongDifficulty
    } else if !reward_balanced(block.txs, db) {
        BlockVerificationState::WrongRewardSum
    } else if head.index >= block.index {
        BlockVerificationState::WrongIdx
    } else if head.digest() != Some(block.previous_hash) {
        BlockVerificationState::WrongHead
    } else if head.time.after(block.time) {
        BlockVerificationState::WrongTime
    } else {
        BlockVerificationState::Success
    }
}

/// Whether `hash` meets the proof-of-work target.
pub fn hash_meets_target(hash: &Option<Vec<u8>>) -> (met: bool)
    ensures
        met == meets_target(memo_view(*hash)),
{
    match hash {
        Some(hash) => hash.len() >= 2 && hash[0] == 0 && hash[1] <= 0x0f,
        None => false,
    }
}

/// Whether every transaction of `txs` after the first is accepted and the
/// first pays out exactly the mining reward and their fees.
pub fn check_reward(db: &Db, txs: &Vec<Tx>) -> (balanced: bool)
    ensures
        balanced == reward_balanced(tx_views(txs@), db@),
{
    let ghost views = tx_views(txs@);
    let verifier = TxVerifier {  };
    let mut total_reward: u128 = MINING_REWARD as u128;
    let mut i: usize = 1;
    while i < txs.len()
        invariant
            1 <= i,
            i <= txs@.len() || txs@.len() == 0,
            views == tx_views(txs@),
            fees_total(views, db@, i as int) == Some(total_reward - MINING_REWARD),
            MINING_REWARD <= total_reward <= MINING_REWARD + (i - 1) * 0xffff_ffff_ffff_ffff,
        decreases txs@.len() - i,
    {
        proof {
            assert(views[i as int] == txs@[i as int]@);
        }
        match verifier.verify(&txs[i], db) {
            Ok(fee) => {
                total_reward = total_reward + fee as u128;
            },
            Err(_) => {
                proof {
                    lemma_refusal_stays(views, db@, i as int + 1, txs@.len() as int);
                }
                return false;
            },
        }
        i += 1;
    }
    if txs.len() == 0 {
        return false;
    }
    proof {
        assert(views[0] == txs@[0]@);
    }
    let total_reward_out = sum_outputs(&txs[0].outputs);
    total_reward_out == total_reward
}

/// Once a transaction is refused, the fees have no sum, however many more
/// transactions are looked at.
pub proof fn lemma_refusal_stays(txs: Seq<TxView>, db: DbView, n: int, m: int)
    requires
        n <= m,
        fees_total(txs, db, n) is None,
    ensures
        fees_total(txs, db, m) is None,
    decreases m - n,
{
    if n < m {
        lemma_refusal_stays(txs, db, n, m - 1);
    }
}

/// The verdict on `block` as the successor of `head`, with the store `db`.
pub fn verify_block(db: &Db, head: &Block, block: &Block) -> (state: BlockVerificationState)
    ensures
        state == block_verdict(db@, head@, block@),
{
    let hash = block.digest();
    if !hash_meets_target(&hash) {
        return BlockVerificationState::WrongDifficulty;
    }
    if !check_reward(db, &block.txs) {
        return BlockVerificationState::WrongRewardSum;
    }
    if head.index >= block.index {
        return BlockVerificationState::WrongIdx;
    }
    let linked = match head.digest() {
        Some(head_hash) => same_bytes(head_hash.as_slice(), block.previous_hash.as_slice()),
        None => false,
    };
    if !linked {
        return BlockVerificationState::WrongHead;
    }
    if head.time.is_after(&block.time) {
        return BlockVerificationState::WrongTime;
    }
    BlockVerificationState::Success
}

/// Checks blocks against the head of a chain, with a store of its own.
#[derive(Debug)]
pub struct BlockVerifier {
    pub db: Db,
    pub tx_verifier: TxVerifier,
}

impl BlockVerifier {
    /// A verifier that checks against `db`.
    pub fn new(db: Db) -> (verifier: BlockVerifier)
        ensures
            verifier.db == db,
    {
        BlockVerifier { db, tx_verifier: TxVerifier {  } }
    }

    /// The verdict on `block` as the successor of `head`.
    pub fn verify(&self, head: &Block, block: &Block) -> (state: BlockVerificationState)
        ensures
            state == block_verdict(self.db@, head@, block@),
            state == BlockVerificationState::Success ==> coinbase_total(block@.txs) == MINING_REWARD
                + fees_total(block@.txs, self.db@, block@.txs.len() as int).unwrap(),
            !meets_target(block@.digest()) ==> state == BlockVerificationState::WrongDifficulty,
    {
        verify_block(&self.db, head, block)
    }
}

} // verus!
