//! The chain manager: it owns the chain, the blocks of a competing branch
//! and the pools of pending transactions, builds and mines blocks, and
//! decides what happens to a block that is offered to it.

use vstd::prelude::*;
use crate::assoc::AssocList;
use crate::clock::{now, Timestamp};
use crate::commit::{apply_block, commit_block};
use crate::db::{Db, DbView};
use crate::laws::{law_forks_stay_keyed, law_pending_stay_distinct};
use crate::encoding::same_bytes;
use crate::miner::{mine, mined};
use crate::pool::{
    fee_total, pool_contains, pool_view, pool_without, select_batch, select_top, sum_fees, without,
    EntryView,
};
use crate::signature::signature_of;
use crate::transactions::{
    input_binding, signing_digest, Block, BlockView, Input, InputView, Output, OutputView, Tx,
    TxView,
};
use crate::verifiers::{
    block_verdict, meets_target, tx_verdict, verify_block, BlockVerificationState, TxVerifier,
};
use crate::wallet::Wallet;
use crate::{genesis_hash, genesis_hash_of, MINING_REWARD, TXS_BY_BLOCK};

verus! {

/// Why the chain did not take a block.
#[derive(Clone, Copy, Debug, PartialEq, Eq, Structural)]
pub enum ChainError {
    /// The block has the hash of the head.
    DuplicateBlock,
    /// The hash of the block misses the target.
    WrongDifficulty,
    /// A transaction of the block is refused, or its coinbase pays out the
    /// wrong sum.
    WrongRewardSum,
    /// The block competes with the head; it was put aside.
    ForkBuffered,
    /// The block extends neither the head nor a block that was put aside.
    UnresolvedFork,
    /// Not one of all nonces gives the block a hash that meets the target.
    NoNonce,
    /// The height or the reward of the next block does not fit its type.
    Overflow,
    /// A pending transaction is not in the store.
    UnknownTransaction,
}

/// The blocks of a chain as the contracts see them.
pub open spec fn block_views(blocks: Seq<Block>) -> Seq<BlockView> {
    blocks.map_values(|block: Block| block@)
}

/// The chain manager.
#[derive(Debug)]
pub struct Blockchain {
    pub db: Db,
    pub wallet: Wallet,
    /// The pending transactions, each with its fee.
    pub unconfirmed_txs: Vec<(Vec<u8>, u64)>,
    /// The pending transactions chosen for the block that is under way.
    pub current_block_txs: Vec<(Vec<u8>, u64)>,
    /// The accepted blocks, lowest first.
    pub chain: Vec<Block>,
    /// The blocks put aside because they compete with the head, by hash.
    pub fork_blocks: AssocList<Vec<u8>, Block>,
}

/// A [`Blockchain`], without its wallet, as the contracts see it.
pub struct BlockchainView {
    pub db: DbView,
    pub unconfirmed_txs: Seq<EntryView>,
    pub current_block_txs: Seq<EntryView>,
    pub chain: Seq<BlockView>,
    pub fork_blocks: Map<Seq<u8>, BlockView>,
}

impl View for Blockchain {
    type V = BlockchainView;

    open spec fn view(&self) -> BlockchainView {
        BlockchainView {
            db: self.db@,
            unconfirmed_txs: pool_view(self.unconfirmed_txs@),
            current_block_txs: pool_view(self.current_block_txs@),
            chain: block_views(self.chain@),
            fork_blocks: self.fork_blocks@.map_values(|block: Block| block@),
        }
    }
}

/// The coinbase transaction that pays `amount` to `wallet`, made at `time`:
/// one input that names the genesis hash, with its digest remembered, and
/// one output bound to it.
pub open spec fn coinbase_view(wallet: Wallet, amount: u64, time: Timestamp) -> TxView {
    let input = InputView {
        previous_tx_hash: genesis_hash_of(),
        output_idx: 0,
        address: wallet.address_text(),
        idx: 0,
        hash: None,
        signature: signature_of(
            wallet.secret_bytes(),
            signing_digest(genesis_hash_of(), 0, wallet.address_text(), 0),
        ),
        amount: 0,
    };
    let output = OutputView {
        address: wallet.public_bytes(),
        idx: 0,
        amount,
        input_hash: input_binding(seq![input.digest()]),
        hash: None,
    };
    TxView { inputs: seq![input.hashed()], outputs: seq![output], time, hash: None }
}

/// A pool with `entry` in it: the pool itself if the entry is there
/// already.
pub open spec fn pool_with(pool: Seq<EntryView>, entry: EntryView) -> Seq<EntryView> {
    if pool.contains(entry) {
        pool
    } else {
        pool.push(entry)
    }
}

impl BlockchainView {
    /// The highest block of the chain, if there is one.
    pub open spec fn head(self) -> Option<BlockView> {
        if self.chain.len() == 0 {
            None
        } else {
            Some(self.chain.last())
        }
    }

    /// Whether every block that is put aside stands under its own hash.
    pub open spec fn forks_by_hash(self) -> bool {
        forall|hash: Seq<u8>|
            self.fork_blocks.contains_key(hash) ==> (#[trigger] self.fork_blocks[hash]).digest()
                == Some(hash)
    }

    /// What the chain answers when `block` is offered to it.
    ///
    /// An empty chain takes any block. Otherwise a block with the hash of
    /// the head is a duplicate; a block that the head's successor check
    /// accepts is taken; one with a hash off target or a wrong reward is
    /// refused. A block that only fails to follow the head is put aside if
    /// it follows the same block as the head; it is taken, together with
    /// the block it follows, if that one was put aside before; else it is
    /// refused.
    pub open spec fn add_outcome(self, block: BlockView) -> Result<(), ChainError> {
        if self.chain.len() == 0 {
            Ok(())
        } else if self.chain.last().digest() == block.digest() {
            Err(ChainError::DuplicateBlock)
        } else {
            match block_verdict(self.db, self.chain.last(), block) {
                BlockVerificationState::Success => Ok(()),
                BlockVerificationState::WrongDifficulty => Err(ChainError::WrongDifficulty),
                BlockVerificationState::WrongRewardSum => Err(ChainError::WrongRewardSum),
                _ => {
                    if block.previous_hash == self.chain.last().previous_hash {
                        Err(ChainError::ForkBuffered)
                    } else if self.fork_blocks.contains_key(block.previous_hash) {
                        Ok(())
                    } else {
                        Err(ChainError::UnresolvedFork)
                    }
                },
            }
        }
    }

    /// The chain manager after `block` was offered to it.
    pub open spec fn after_add(self, block: BlockView) -> BlockchainView {
        match self.add_outcome(block) {
            Ok(()) => {
                if self.chain.len() == 0 || block_verdict(self.db, self.chain.last(), block)
                    == BlockVerificationState::Success {
                    BlockchainView { chain: self.chain.push(block), fork_blocks: Map::empty(), ..self }
                } else {
                    BlockchainView {
                        chain: self.chain.push(self.fork_blocks[block.previous_hash]).push(block),
                        fork_blocks: Map::empty(),
                        ..self
                    }
                }
            },
            Err(ChainError::ForkBuffered) => BlockchainView {
                fork_blocks: self.fork_blocks.insert(block.digest().unwrap(), block),
                ..self
            },
            Err(_) => self,
        }
    }

    /// The chain manager after `block` was committed: the store holds what
    /// the block did, the transactions chosen for the block have left the
    /// pending ones, and none is chosen any more.
    pub open spec fn committed(self, block: BlockView) -> BlockchainView {
        BlockchainView {
            db: commit_block(self.db, block),
            unconfirmed_txs: without(self.unconfirmed_txs, self.current_block_txs),
            current_block_txs: seq![],
            ..self
        }
    }

    /// What comes of mining `block` and offering it to the chain, and the
    /// chain manager after it. Without a nonce nothing changes. A block that
    /// the chain takes is committed.
    pub open spec fn mine_and_commit(self, block: BlockView) -> (Result<(), ChainError>, BlockchainView) {
        match mined(block) {
            None => (Err(ChainError::NoNonce), self),
            Some(block) => match self.add_outcome(block) {
                Ok(()) => (Ok(()), self.after_add(block).committed(block)),
                Err(error) => (Err(error), self.after_add(block)),
            },
        }
    }

    /// Whether the store knows every transaction of `batch`.
    pub open spec fn knows(self, batch: Seq<EntryView>) -> bool {
        forall|i: int| 0 <= i < batch.len() ==> self.db.tx_by_hash.contains_key((#[trigger] batch[i]).0)
    }

    /// The hash that the next block names as the one before it: the hash of
    /// the head, or one zero byte where there is none.
    pub open spec fn next_previous_hash(self) -> Seq<u8> {
        match self.head() {
            Some(head) => match head.digest() {
                Some(hash) => hash,
                None => seq![0u8],
            },
            None => seq![0u8],
        }
    }

    /// The height of the next block.
    pub open spec fn next_index(self) -> int {
        match self.head() {
            Some(head) => head.index + 1,
            None => 0,
        }
    }

    /// The block that is built at `time` for `wallet` from the pending
    /// transactions, before it is mined: a coinbase that pays the mining
    /// reward and the fees of the chosen transactions, then the chosen
    /// transactions as the store has them, best first.
    pub open spec fn candidate(self, wallet: Wallet, time: Timestamp) -> Result<BlockView, ChainError> {
        let batch = select_top(self.unconfirmed_txs, TXS_BY_BLOCK as nat);
        if MINING_REWARD + fee_total(batch) > u64::MAX || self.next_index() > u32::MAX {
            Err(ChainError::Overflow)
        } else if !self.knows(batch) {
            Err(ChainError::UnknownTransaction)
        } else {
            Ok(
                BlockView {
                    txs: seq![
                        coinbase_view(wallet, (MINING_REWARD + fee_total(batch)) as u64, time),
                    ] + Seq::new(batch.len(), |i: int| self.db.tx_by_hash[batch[i].0]),
                    previous_hash: self.next_previous_hash(),
                    index: self.next_index() as u32,
                    nonce: 0,
                    time,
                    merkel_root: None,
                },
            )
        }
    }

    /// What comes of building, mining and offering the next block at
    /// `time`, and the chain manager after it.
    pub open spec fn forced(self, wallet: Wallet, time: Timestamp) -> (Result<(), ChainError>, BlockchainView) {
        match self.candidate(wallet, time) {
            Err(error) => (Err(error), self),
            Ok(block) => (BlockchainView {
                current_block_txs: select_top(self.unconfirmed_txs, TXS_BY_BLOCK as nat),
                ..self
            }).mine_and_commit(block),
        }
    }

    /// What the chain answers when the pending transaction `tx` is offered
    /// to it: whether it has a hash, is new to the store, and is accepted.
    pub open spec fn tx_welcome(self, tx: TxView) -> bool {
        &&& tx.digest() is Some
        &&& !self.db.tx_by_hash.contains_key(tx.digest().unwrap())
        &&& tx_verdict(tx.hashed(), self.db) is Ok
    }

    /// The chain manager after the pending transaction `tx` was offered to
    /// it.
    pub open spec fn after_add_tx(self, tx: TxView) -> BlockchainView {
        if self.tx_welcome(tx) {
            BlockchainView {
                db: self.db.record(tx.hashed()),
                unconfirmed_txs: pool_with(
                    self.unconfirmed_txs,
                    (tx.digest().unwrap(), tx_verdict(tx.hashed(), self.db).unwrap()),
                ),
                ..self
            }
        } else {
            self
        }
    }
}

impl Blockchain {
    /// A chain manager with an empty chain and empty pools.
    pub fn new(db: Db, wallet: Wallet) -> (blockchain: Blockchain)
        ensures
            blockchain.wallet == wallet,
            blockchain@ == (BlockchainView {
                db: db@,
                unconfirmed_txs: seq![],
                current_block_txs: seq![],
                chain: seq![],
                fork_blocks: Map::empty(),
            }),
    {
        let blockchain = Blockchain {
            db,
            wallet,
            unconfirmed_txs: Vec::new(),
            current_block_txs: Vec::new(),
            chain: Vec::new(),
            fork_blocks: AssocList::new(),
        };
        proof {
            assert(blockchain@.unconfirmed_txs =~= seq![]);
            assert(blockchain@.current_block_txs =~= seq![]);
            assert(blockchain@.chain =~= seq![]);
            assert(blockchain@.fork_blocks =~= Map::empty());
        }
        blockchain
    }

    /// The highest block of the chain, if there is one.
    pub fn head(&self) -> (head: Option<&Block>)
        ensures
            head is Some == self@.head().is_some(),
            head is Some ==> head.unwrap()@ == self@.head().unwrap(),
    {
        if self.chain.len() == 0 {
            None
        } else {
            Some(&self.chain[self.chain.len() - 1])
        }
    }

    /// The coinbase transaction that pays the mining reward and `fee` to
    /// the wallet of this chain manager, made now.
    pub fn free_tx(&self, fee: Option<u64>) -> (tx: Tx)
        requires
            MINING_REWARD + fee.unwrap_or(0) <= u64::MAX,
        ensures
            tx@ == coinbase_view(self.wallet, (MINING_REWARD + fee.unwrap_or(0)) as u64, tx.time),
    {
        self.free_tx_at(fee, now())
    }

    /// The coinbase transaction that pays the mining reward and `fee` to
    /// the wallet of this chain manager, made at `time`.
    pub fn free_tx_at(&self, fee: Option<u64>, time: Timestamp) -> (tx: Tx)
        requires
            MINING_REWARD + fee.unwrap_or(0) <= u64::MAX,
        ensures
            tx@ == coinbase_view(self.wallet, (MINING_REWARD + fee.unwrap_or(0)) as u64, time),
    {
        let amount: u64 = MINING_REWARD + match fee {
            Some(fee) => fee,
            None => 0,
        };
        let genesis = genesis_hash();
        let mut input = Input::new(genesis.as_slice(), 0, Some(0), &self.wallet);
        let input_hash = input.digest();
        let _ = input.hash();
        let hashes: [&[u8]; 1] = [input_hash.as_slice()];
        proof {
            assert(hashes@.map_values(|hash: &[u8]| hash@) =~= seq![input_hash@]);
        }
        let output = Output::new(self.wallet.public_key().as_slice(), amount, hashes.as_slice());
        let mut inputs: Vec<Input> = Vec::new();
        inputs.push(input);
        let mut outputs: Vec<Output> = Vec::new();
        outputs.push(output);
        let tx = Tx::new_at(inputs.as_slice(), outputs.as_slice(), time);
        proof {
            let expected = coinbase_view(self.wallet, amount, time);
            assert(tx@.inputs =~= expected.inputs);
            assert(tx@.outputs =~= expected.outputs);
        }
        tx
    }

    /// Undoes the head. It does nothing: a branch that wins is added on top
    /// of the head that loses.
    pub fn rollback_block(&self) {
    }

    /// Offers `block` to the chain.
    pub fn add_block(&mut self, block: &Block) -> (outcome: Result<(), ChainError>)
        ensures
            outcome == old(self)@.add_outcome(block@),
            final(self)@ == old(self)@.after_add(block@),
            final(self).wallet == old(self).wallet,
            final(self)@.unconfirmed_txs == old(self)@.unconfirmed_txs,
            old(self)@.forks_by_hash() ==> final(self)@.forks_by_hash(),
            outcome is Ok && old(self)@.chain.len() > 0 && block_verdict(
                old(self)@.db,
                old(self)@.chain.last(),
                block@,
            ) == BlockVerificationState::Success ==> final(self)@.chain.len() == old(self)@.chain.len()
                + 1 && Some(final(self)@.chain.last().previous_hash) == old(
                self,
            )@.chain.last().digest(),
    {
        proof {
            if old(self)@.forks_by_hash() {
                law_forks_stay_keyed(old(self)@, old(self).wallet, block@, arbitrary(), arbitrary());
            }
        }
        if self.chain.len() == 0 {
            self.push_block(block.clone());
            self.clear_forks();
            return Ok(());
        }
        let head = &self.chain[self.chain.len() - 1];
        proof {
            assert(self@.chain.last() == head@);
        }
        let head_hash = head.digest();
        let block_hash = block.digest();
        let duplicate = match (&head_hash, &block_hash) {
            (Some(head_hash), Some(block_hash)) => same_bytes(
                head_hash.as_slice(),
                block_hash.as_slice(),
            ),
            (None, None) => true,
            _ => false,
        };
        if duplicate {
            return Err(ChainError::DuplicateBlock);
        }
        let verdict = verify_block(&self.db, head, block);
        let sibling = same_bytes(block.previous_hash.as_slice(), head.previous_hash.as_slice());
        match verdict {
            BlockVerificationState::Success => {
                self.push_block(block.clone());
                self.clear_forks();
                Ok(())
            },
            BlockVerificationState::WrongDifficulty => Err(ChainError::WrongDifficulty),
            BlockVerificationState::WrongRewardSum => Err(ChainError::WrongRewardSum),
            _ => {
                if sibling {
                    match block_hash {
                        Some(block_hash) => {
                            self.fork_blocks.insert(block_hash, block.clone());
                            proof {
                                assert(self@.fork_blocks =~= old(self)@.fork_blocks.insert(
                                    block@.digest().unwrap(),
                                    block@,
                                ));
                            }
                        },
                        None => {},
                    }
                    return Err(ChainError::ForkBuffered);
                }
                let buffered = match self.fork_blocks.get(&block.previous_hash) {
                    Some(buffered) => Some(buffered.clone()),
                    None => None,
                };
                match buffered {
                    Some(buffered) => {
                        self.rollback_block();
                        self.push_block(buffered);
                        self.push_block(block.clone());
                        self.clear_forks();
                        Ok(())
                    },
                    None => Err(ChainError::UnresolvedFork),
                }
            },
        }
    }

    /// Puts `block` on top of the chain.
    fn push_block(&mut self, block: Block)
        ensures
            final(self)@ == (BlockchainView { chain: old(self)@.chain.push(block@), ..old(self)@ }),
            final(self).wallet == old(self).wallet,
    {
        self.chain.push(block);
        proof {
            assert(self@.chain =~= old(self)@.chain.push(block@));
        }
    }

    /// Forgets the blocks that were put aside.
    fn clear_forks(&mut self)
        ensures
            final(self)@ == (BlockchainView { fork_blocks: Map::empty(), ..old(self)@ }),
            final(self).wallet == old(self).wallet,
    {
        self.fork_blocks.clear();
        proof {
            assert(self@.fork_blocks =~= Map::empty());
        }
    }

    /// Commits `block`: the store takes in what the block did, the
    /// transactions chosen for the block leave the pending ones, and none is
    /// chosen any more.
    pub fn rollover_block(&mut self, block: &Block)
        ensures
            final(self)@ == old(self)@.committed(block@),
            final(self).wallet == old(self).wallet,
            old(self)@.unconfirmed_txs.no_duplicates() ==> final(self)@.unconfirmed_txs.no_duplicates(),
            final(self)@.fork_blocks == old(self)@.fork_blocks,
    {
        proof {
            if old(self)@.unconfirmed_txs.no_duplicates() {
                law_pending_stay_distinct(old(self)@, old(self).wallet, block@, arbitrary(), arbitrary());
            }
        }
        let rest = pool_without(&self.unconfirmed_txs, &self.current_block_txs);
        self.unconfirmed_txs = rest;
        apply_block(&mut self.db, block);
        self.current_block_txs.clear();
        proof {
            assert(self@.current_block_txs =~= seq![]);
        }
    }

    /// Mines `block` and offers it to the chain; a block that the chain
    /// takes is committed.
    pub fn mine_block(&mut self, block: &mut Block) -> (outcome: Result<(), ChainError>)
        ensures
            outcome == old(self)@.mine_and_commit(old(block)@).0,
            final(self)@ == old(self)@.mine_and_commit(old(block)@).1,
            final(self).wallet == old(self).wallet,
            final(block)@ == match mined(old(block)@) {
                Some(block) => block,
                None => old(block)@.built(),
            },
            outcome != Err::<(), ChainError>(ChainError::NoNonce) ==> meets_target(final(block)@.digest()),
            old(self)@.unconfirmed_txs.no_duplicates() ==> final(self)@.unconfirmed_txs.no_duplicates(),
            old(self)@.forks_by_hash() ==> final(self)@.forks_by_hash(),
    {
        proof {
            if old(self)@.unconfirmed_txs.no_duplicates() {
                law_pending_stay_distinct(
                    old(self)@,
                    old(self).wallet,
                    old(block)@,
                    arbitrary(),
                    arbitrary(),
                );
            }
            if old(self)@.forks_by_hash() {
                law_forks_stay_keyed(old(self)@, old(self).wallet, old(block)@, arbitrary(), arbitrary());
            }
        }
        match mine(block) {
            None => Err(ChainError::NoNonce),
            Some(_) => {
                match self.add_block(block) {
                    Ok(()) => {
                        self.rollover_block(block);
                        Ok(())
                    },
                    Err(error) => Err(error),
                }
            },
        }
    }

    /// The first block of a chain, made at `time`: a coinbase that pays the
    /// mining reward, at height 0, after one zero byte.
    pub open spec fn genesis_candidate(wallet: Wallet, time: Timestamp) -> BlockView {
        BlockView {
            txs: seq![coinbase_view(wallet, MINING_REWARD, time)],
            previous_hash: seq![0u8],
            index: 0,
            nonce: 0,
            time,
            merkel_root: None,
        }
    }

    /// Builds the first block now, mines it and offers it to the chain.
    pub fn genesis_block(&mut self) -> (outcome: Result<(), ChainError>)
        ensures
            final(self).wallet == old(self).wallet,
            old(self)@.unconfirmed_txs.no_duplicates() ==> final(self)@.unconfirmed_txs.no_duplicates(),
            old(self)@.forks_by_hash() ==> final(self)@.forks_by_hash(),
            exists|time: Timestamp|
                {
                    &&& outcome == (#[trigger] old(self)@.mine_and_commit(
                        Blockchain::genesis_candidate(old(self).wallet, time),
                    )).0
                    &&& final(self)@ == old(self)@.mine_and_commit(
                        Blockchain::genesis_candidate(old(self).wallet, time),
                    ).1
                },
    {
        self.genesis_block_at(now())
    }

    /// Builds the first block at `time`, mines it and offers it to the
    /// chain.
    pub fn genesis_block_at(&mut self, time: Timestamp) -> (outcome: Result<(), ChainError>)
        ensures
            outcome == old(self)@.mine_and_commit(
                Blockchain::genesis_candidate(old(self).wallet, time),
            ).0,
            final(self)@ == old(self)@.mine_and_commit(
                Blockchain::genesis_candidate(old(self).wallet, time),
            ).1,
            final(self).wallet == old(self).wallet,
            old(self)@.unconfirmed_txs.no_duplicates() ==> final(self)@.unconfirmed_txs.no_duplicates(),
            old(self)@.forks_by_hash() ==> final(self)@.forks_by_hash(),
    {
        let tx = self.free_tx_at(None, time);
        let mut txs: Vec<Tx> = Vec::new();
        txs.push(tx);
        let sentinel: [u8; 1] = [0];
        let mut block = Block::new_at(txs.as_slice(), 0, sentinel.as_slice(), None, time);
        proof {
            let expected = Blockchain::genesis_candidate(self.wallet, time);
            assert(block@.txs =~= expected.txs);
            assert(block@.previous_hash =~= expected.previous_hash);
        }
        self.mine_block(&mut block)
    }

    /// Builds the next block now from the pending transactions, mines it
    /// and offers it to the chain.
    pub fn force_block(&mut self) -> (outcome: Result<(), ChainError>)
        ensures
            final(self).wallet == old(self).wallet,
            old(self)@.unconfirmed_txs.no_duplicates() ==> final(self)@.unconfirmed_txs.no_duplicates(),
            old(self)@.forks_by_hash() ==> final(self)@.forks_by_hash(),
            exists|time: Timestamp|
                {
                    &&& outcome == (#[trigger] old(self)@.forced(old(self).wallet, time)).0
                    &&& final(self)@ == old(self)@.forced(old(self).wallet, time).1
                },
    {
        self.force_block_at(now())
    }

    /// Builds the next block at `time` from the pending transactions, mines
    /// it and offers it to the chain.
    ///
    /// Up to [`TXS_BY_BLOCK`] pending transactions are chosen, those with
    /// the highest fees. The block holds a coinbase that pays the mining
    /// reward and their fees, and then the chosen transactions. It stands
    /// one above the head and names the hash of the head.
    #[verifier::loop_isolation(false)]
    pub fn force_block_at(&mut self, time: Timestamp) -> (outcome: Result<(), ChainError>)
        ensures
            outcome == old(self)@.forced(old(self).wallet, time).0,
            final(self)@ == old(self)@.forced(old(self).wallet, time).1,
            final(self).wallet == old(self).wallet,
            old(self)@.unconfirmed_txs.no_duplicates() ==> final(self)@.unconfirmed_txs.no_duplicates(),
            old(self)@.forks_by_hash() ==> final(self)@.forks_by_hash(),
    {
        proof {
            if old(self)@.unconfirmed_txs.no_duplicates() {
                law_pending_stay_distinct(old(self)@, old(self).wallet, arbitrary(), arbitrary(), time);
            }
            if old(self)@.forks_by_hash() {
                law_forks_stay_keyed(old(self)@, old(self).wallet, arbitrary(), arbitrary(), time);
            }
        }
        let batch = select_batch(&self.unconfirmed_txs, TXS_BY_BLOCK);
        let ghost chosen = pool_view(batch@);
        let total_fee = match sum_fees(&batch) {
            Some(total_fee) => total_fee,
            None => {
                return Err(ChainError::Overflow);
            },
        };
        if total_fee > u64::MAX - MINING_REWARD {
            return Err(ChainError::Overflow);
        }
        let (index, previous_hash) = match self.head() {
            Some(head) => {
                if head.index == u32::MAX {
                    return Err(ChainError::Overflow);
                }
                let previous_hash = match head.digest() {
                    Some(hash) => hash,
                    None => one_zero(),
                };
                (head.index + 1, previous_hash)
            },
            None => (0, one_zero()),
        };
        let mut txs: Vec<Tx> = Vec::new();
        txs.push(self.free_tx_at(Some(total_fee), time));
        let ghost coinbase = txs@[0]@;
        let mut i: usize = 0;
        while i < batch.len()
            invariant
                i <= batch@.len(),
                chosen == pool_view(batch@),
                txs@.len() == i + 1,
                txs@[0]@ == coinbase,
                forall|j: int| 0 <= j < i ==> self@.db.tx_by_hash.contains_key((#[trigger] chosen[j]).0),
                forall|j: int| 0 <= j < i ==> (#[trigger] txs@[j + 1])@ == self@.db.tx_by_hash[chosen[j].0],
            decreases batch@.len() - i,
        {
            proof {
                assert(chosen[i as int].0 == batch@[i as int].0@);
            }
            match self.db.lookup_tx(&batch[i].0) {
                Some(tx) => {
                    txs.push(tx.clone());
                },
                None => {
                    proof {
                        assert(!old(self)@.knows(chosen));
                    }
                    return Err(ChainError::UnknownTransaction);
                },
            }
            i += 1;
        }
        let mut block = Block::new_at(txs.as_slice(), index, previous_hash.as_slice(), None, time);
        proof {
            let expected = old(self)@.candidate(self.wallet, time);
            assert(old(self)@.knows(chosen));
            assert(expected is Ok);
            assert(block@.txs.len() == chosen.len() + 1);
            assert forall|j: int| 0 <= j < block@.txs.len() implies block@.txs[j]
                == expected.unwrap().txs[j] by {
                if j > 0 {
                    assert(block@.txs[j] == txs@[j - 1 + 1]@);
                }
            }
            assert(block@.txs =~= expected.unwrap().txs);
        }
        self.current_block_txs = batch;
        self.mine_block(&mut block)
    }

    /// Offers the pending transaction `tx` to the chain. If it has a hash,
    /// is new to the store and is accepted, a copy of it is recorded in the
    /// store and it joins the pending transactions with its fee. The hash
    /// of `tx` is remembered from now on if there is one.
    pub fn _add_tx(&mut self, tx: &mut Tx) -> (welcome: bool)
        ensures
            welcome == old(self)@.tx_welcome(old(tx)@),
            final(self)@ == old(self)@.after_add_tx(old(tx)@),
            final(self).wallet == old(self).wallet,
            final(tx)@ == old(tx)@.hashed(),
            old(self)@.unconfirmed_txs.no_duplicates() ==> final(self)@.unconfirmed_txs.no_duplicates(),
            final(self)@.fork_blocks == old(self)@.fork_blocks,
    {
        proof {
            if old(self)@.unconfirmed_txs.no_duplicates() {
                law_pending_stay_distinct(old(self)@, old(self).wallet, arbitrary(), old(tx)@, arbitrary());
            }
        }
        if !tx.is_hashable() {
            return false;
        }
        let tx_hash = match tx.hash() {
            Some(tx_hash) => tx_hash,
            None => {
                return false;
            },
        };
        if self.db.tx_by_hash.contains_key(&tx_hash) {
            return false;
        }
        let verifier = TxVerifier {  };
        match verifier.verify(tx, &self.db) {
            Ok(fee) => {
                let _ = self.db.record_committed_tx(tx);
                let entry = (tx_hash, fee);
                if !pool_contains(&self.unconfirmed_txs, &entry) {
                    self.unconfirmed_txs.push(entry);
                    proof {
                        assert(self@.unconfirmed_txs =~= old(self)@.unconfirmed_txs.push(
                            (entry.0@, entry.1),
                        ));
                    }
                }
                true
            },
            Err(_) => false,
        }
    }
}

/// The byte string that stands for the hash before the first block.
fn one_zero() -> (bytes: Vec<u8>)
    ensures
        bytes@ == seq![0u8],
{
    let mut bytes: Vec<u8> = Vec::new();
    bytes.push(0);
    bytes
}

} // verus!
