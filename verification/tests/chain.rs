use pow_ledger::blockchain::{Blockchain, ChainError};
use pow_ledger::clock::Timestamp;
use pow_ledger::commit::{apply_block, apply_input, apply_tx};
use pow_ledger::db::Db;
use pow_ledger::genesis_hash;
use pow_ledger::miner::mine;
use pow_ledger::pool::{find_best, pool_contains, pool_without, select_batch, sum_fees};
use pow_ledger::transactions::{Block, Input, Output, Tx};
use pow_ledger::verifiers::{hash_meets_target, TxError, TxVerifier};
use pow_ledger::wallet::Wallet;

fn funded_chain(seed: u64, blocks: u64) -> Blockchain {
    let wallet = Wallet::from_seed(seed).unwrap();
    let mut chain = Blockchain::new(Db::default(), wallet);
    assert_eq!(chain.genesis_block_at(Timestamp::new(1_000, 0)), Ok(()));
    for i in 1..blocks {
        assert_eq!(chain.force_block_at(Timestamp::new(1_000 + i, 0)), Ok(()));
    }
    chain
}

fn spend(chain: &Blockchain, height: usize, pay: u64) -> Tx {
    let source_hash = chain.chain[height].txs[0].digest().unwrap();
    let mut input = Input::new(&source_hash, 0, Some(0), &chain.wallet);
    let input_hash = input.hash().unwrap();
    let output = Output::new(chain.wallet.public_key(), pay, &[&input_hash[..]]);
    Tx::new_at(&[input], &[output], Timestamp::new(5_000, 0))
}

fn mined_block(txs: &[Tx], index: u32, previous_hash: &[u8], secs: u64) -> Block {
    let mut block = Block::new_at(txs, index, previous_hash, None, Timestamp::new(secs, 0));
    assert!(mine(&mut block).is_some());
    block
}

fn entry(hash: u8, fee: u64) -> (Vec<u8>, u64) {
    (vec![hash], fee)
}

#[test]
fn new_chain_is_empty() {
    let chain = Blockchain::new(Db::default(), Wallet::from_seed(1337).unwrap());
    assert!(chain.head().is_none());
    assert_eq!(chain.chain.len(), 0);
    assert_eq!(chain.unconfirmed_txs.len(), 0);
    assert_eq!(chain.current_block_txs.len(), 0);
    assert_eq!(chain.fork_blocks.entries.len(), 0);
}

#[test]
fn free_tx_mints_reward_and_fee_to_the_wallet() {
    let chain = Blockchain::new(Db::default(), Wallet::from_seed(1337).unwrap());
    let tx = chain.free_tx_at(Some(17), Timestamp::new(9, 0));
    assert_eq!(tx.inputs.len(), 1);
    assert_eq!(tx.inputs[0].previous_tx_hash, genesis_hash());
    assert_eq!(tx.inputs[0].output_idx, 0);
    assert_eq!(tx.inputs[0].idx, 0);
    assert_eq!(&tx.inputs[0].address, chain.wallet.address());
    assert_eq!(tx.inputs[0].hash, Some(tx.inputs[0].digest()));
    assert_eq!(tx.outputs.len(), 1);
    assert_eq!(tx.outputs[0].amount, 267);
    assert_eq!(&tx.outputs[0].address, chain.wallet.public_key());
    let hash: &[u8] = &tx.inputs[0].digest();
    assert_eq!(
        tx.outputs[0].input_hash,
        Output::new(chain.wallet.public_key(), 0, &[hash]).input_hash
    );
    assert_eq!(tx.time, Timestamp::new(9, 0));
    assert_eq!(tx.hash, None);
    assert_eq!(chain.free_tx_at(None, Timestamp::new(9, 0)).outputs[0].amount, 250);
    assert_eq!(chain.free_tx(Some(u64::MAX - 250)).outputs[0].amount, u64::MAX);
    assert_eq!(TxVerifier::default().verify(&tx, &chain.db), Err(TxError::InsufficientFunds));
}

#[test]
fn genesis_block_is_mined_and_committed() {
    let chain = funded_chain(1337, 1);
    assert_eq!(chain.chain.len(), 1);
    let head = chain.head().unwrap();
    assert_eq!(head.index, 0);
    assert_eq!(head.previous_hash, vec![0]);
    assert_eq!(head.time, Timestamp::new(1_000, 0));
    assert!(hash_meets_target(&head.digest()));
    assert_eq!(head.txs.len(), 1);
    let coinbase = &head.txs[0];
    let tx_hash = coinbase.digest().unwrap();
    assert_eq!(chain.db.block_index, 0);
    assert!(chain.db.lookup_tx(&tx_hash).is_some());
    assert_eq!(
        chain.db.unspent_amount(chain.wallet.public_key(), &tx_hash, &coinbase.outputs[0].digest()),
        Some(250)
    );
}

#[test]
fn forced_block_extends_the_head() {
    let mut chain = funded_chain(1337, 1);
    let old_head_hash = chain.head().unwrap().digest();
    assert_eq!(chain.force_block_at(Timestamp::new(1_001, 0)), Ok(()));
    assert_eq!(chain.chain.len(), 2);
    let head = chain.head().unwrap();
    assert_eq!(head.index, 1);
    assert_eq!(Some(head.previous_hash.clone()), old_head_hash);
    assert!(hash_meets_target(&head.digest()));
    assert_eq!(chain.db.block_index, 1);
    assert_eq!(chain.fork_blocks.entries.len(), 0);
}

#[test]
fn offered_successor_makes_the_chain_one_longer() {
    let miner = funded_chain(1337, 3);
    let mut follower = Blockchain::new(Db::default(), Wallet::from_seed(420).unwrap());
    for (height, block) in miner.chain.iter().enumerate() {
        let old_head_hash = follower.head().map(|head| head.digest().unwrap());
        assert_eq!(follower.add_block(block), Ok(()));
        assert_eq!(follower.chain.len(), height + 1);
        if let Some(old_head_hash) = old_head_hash {
            assert_eq!(follower.head().unwrap().previous_hash, old_head_hash);
        }
        assert_eq!(follower.head().unwrap().digest(), block.digest());
    }
    assert_eq!(follower.db.tx_by_hash.entries.len(), 0);
}

#[test]
fn empty_chain_takes_any_block() {
    let mut chain = Blockchain::new(Db::default(), Wallet::from_seed(1337).unwrap());
    chain.fork_blocks.insert(vec![1], Block::new_at(&[], 1, &[1], None, Timestamp::new(1, 0)));
    let unmined = Block::new_at(&[], 9, &[7], None, Timestamp::new(1, 0));
    assert_eq!(chain.add_block(&unmined), Ok(()));
    assert_eq!(chain.chain.len(), 1);
    assert_eq!(chain.fork_blocks.entries.len(), 0);
}

#[test]
fn duplicate_of_the_head_is_refused() {
    let mut chain = funded_chain(1337, 2);
    let head = chain.head().unwrap().clone();
    assert_eq!(chain.add_block(&head), Err(ChainError::DuplicateBlock));
    assert_eq!(chain.chain.len(), 2);
    assert_eq!(chain.fork_blocks.entries.len(), 0);
}

#[test]
fn invalid_blocks_are_refused_without_a_trace() {
    let mut chain = funded_chain(1337, 1);
    let head_hash = chain.head().unwrap().digest().unwrap();
    let coinbase = chain.free_tx_at(None, Timestamp::new(1_001, 0));
    let unmined = Block::new_at(&[coinbase], 1, &head_hash, None, Timestamp::new(1_001, 0));
    let mut off_target = unmined.clone();
    while hash_meets_target(&off_target.digest()) {
        off_target.nonce += 1;
    }
    assert_eq!(chain.add_block(&off_target), Err(ChainError::WrongDifficulty));
    let greedy = mined_block(
        &[chain.free_tx_at(Some(1), Timestamp::new(1_001, 0))],
        1,
        &head_hash,
        1_001,
    );
    assert_eq!(chain.add_block(&greedy), Err(ChainError::WrongRewardSum));
    let sibling_but_greedy = mined_block(
        &[chain.free_tx_at(Some(1), Timestamp::new(1_001, 0))],
        0,
        &[0],
        1_001,
    );
    assert_eq!(chain.add_block(&sibling_but_greedy), Err(ChainError::WrongRewardSum));
    assert_eq!(chain.chain.len(), 1);
    assert_eq!(chain.fork_blocks.entries.len(), 0);
}

#[test]
fn sibling_of_the_head_is_put_aside() {
    let mut chain = funded_chain(1337, 2);
    let other = funded_chain(420, 1);
    let rival_coinbase = other.free_tx_at(None, Timestamp::new(1_001, 5));
    let rival = mined_block(
        &[rival_coinbase],
        1,
        &chain.chain[0].digest().unwrap(),
        1_001,
    );
    assert_eq!(chain.add_block(&rival), Err(ChainError::ForkBuffered));
    assert_eq!(chain.chain.len(), 2);
    assert_eq!(chain.fork_blocks.get(&rival.digest().unwrap()).unwrap().digest(), rival.digest());
    assert_eq!(chain.add_block(&rival), Err(ChainError::ForkBuffered));
}

#[test]
fn block_on_a_put_aside_sibling_wins() {
    let mut chain = funded_chain(1337, 2);
    let other = funded_chain(420, 1);
    let rival = mined_block(
        &[other.free_tx_at(None, Timestamp::new(1_001, 5))],
        1,
        &chain.chain[0].digest().unwrap(),
        1_001,
    );
    let on_rival = mined_block(
        &[other.free_tx_at(None, Timestamp::new(1_002, 5))],
        2,
        &rival.digest().unwrap(),
        1_002,
    );
    assert_eq!(chain.add_block(&on_rival), Err(ChainError::UnresolvedFork));
    assert_eq!(chain.add_block(&rival), Err(ChainError::ForkBuffered));
    let old_head_hash = chain.head().unwrap().digest();
    assert_eq!(chain.add_block(&on_rival), Ok(()));
    assert_eq!(chain.chain.len(), 4);
    assert_eq!(chain.chain[1].digest(), old_head_hash);
    assert_eq!(chain.chain[2].digest(), rival.digest());
    assert_eq!(chain.chain[3].digest(), on_rival.digest());
    assert_eq!(chain.fork_blocks.entries.len(), 0);
}

#[test]
fn stray_block_is_an_unresolved_fork() {
    let mut chain = funded_chain(1337, 2);
    let stray = mined_block(
        &[chain.free_tx_at(None, Timestamp::new(1_005, 0))],
        5,
        &[9, 9, 9],
        1_005,
    );
    assert_eq!(chain.add_block(&stray), Err(ChainError::UnresolvedFork));
    assert_eq!(chain.chain.len(), 2);
    assert_eq!(chain.fork_blocks.entries.len(), 0);
}

#[test]
fn successor_clears_what_was_put_aside() {
    let mut chain = funded_chain(1337, 2);
    let other = funded_chain(420, 1);
    let rival = mined_block(
        &[other.free_tx_at(None, Timestamp::new(1_001, 5))],
        1,
        &chain.chain[0].digest().unwrap(),
        1_001,
    );
    assert_eq!(chain.add_block(&rival), Err(ChainError::ForkBuffered));
    assert_eq!(chain.force_block_at(Timestamp::new(1_002, 0)), Ok(()));
    assert_eq!(chain.chain.len(), 3);
    assert_eq!(chain.fork_blocks.entries.len(), 0);
}

#[test]
fn block_without_hash_finds_no_nonce() {
    let mut chain = funded_chain(1337, 1);
    let mut block = Block::new_at(&[], 1, &[0], None, Timestamp::new(1_001, 0));
    assert_eq!(chain.mine_block(&mut block), Err(ChainError::NoNonce));
    assert_eq!(chain.chain.len(), 1);
}

#[test]
fn fees_beyond_64_bits_stop_the_block() {
    let mut chain = funded_chain(1337, 1);
    chain.unconfirmed_txs.push(entry(1, u64::MAX));
    assert_eq!(chain.force_block_at(Timestamp::new(1_001, 0)), Err(ChainError::Overflow));
    chain.unconfirmed_txs[0].1 = u64::MAX - 250;
    assert_eq!(
        chain.force_block_at(Timestamp::new(1_001, 0)),
        Err(ChainError::UnknownTransaction)
    );
    chain.unconfirmed_txs[0].1 = u64::MAX - 249;
    assert_eq!(chain.force_block_at(Timestamp::new(1_001, 0)), Err(ChainError::Overflow));
    assert_eq!(chain.chain.len(), 1);
    assert_eq!(chain.unconfirmed_txs.len(), 1);
    assert_eq!(chain.current_block_txs.len(), 0);
}

#[test]
fn height_beyond_32_bits_stops_the_block() {
    let mut chain = Blockchain::new(Db::default(), Wallet::from_seed(1337).unwrap());
    let top = Block::new_at(&[], u32::MAX, &[0], None, Timestamp::new(1, 0));
    assert_eq!(chain.add_block(&top), Ok(()));
    assert_eq!(chain.force_block_at(Timestamp::new(2, 0)), Err(ChainError::Overflow));
    assert_eq!(chain.chain.len(), 1);
}

#[test]
fn pending_tx_joins_the_pool_with_its_fee() {
    let mut chain = funded_chain(1337, 1);
    let mut tx = spend(&chain, 0, 240);
    assert!(chain._add_tx(&mut tx));
    let tx_hash = tx.hash.clone().unwrap();
    assert_eq!(chain.unconfirmed_txs, vec![(tx_hash.clone(), 10)]);
    assert!(chain.db.lookup_tx(&tx_hash).is_some());
    assert!(!chain._add_tx(&mut tx));
    assert_eq!(chain.unconfirmed_txs.len(), 1);
    let mut overdrawn = spend(&chain, 0, 251);
    assert!(!chain._add_tx(&mut overdrawn));
    let mut unbalanced = spend(&chain, 0, 100);
    unbalanced.outputs.clear();
    assert!(!chain._add_tx(&mut unbalanced));
    assert_eq!(chain.unconfirmed_txs.len(), 1);
    assert_eq!(chain.db.tx_by_hash.entries.len(), 2);
}

#[test]
fn block_takes_the_four_highest_fees() {
    let mut chain = funded_chain(1337, 6);
    let fees = [5u64, 30, 10, 30, 20, 1];
    let mut hashes = Vec::new();
    for (height, fee) in fees.iter().enumerate() {
        let mut tx = spend(&chain, height, 250 - fee);
        assert!(chain._add_tx(&mut tx));
        hashes.push(tx.hash.clone().unwrap());
    }
    assert_eq!(chain.unconfirmed_txs.len(), 6);
    let old_head_hash = chain.head().unwrap().digest().unwrap();

    assert_eq!(chain.force_block_at(Timestamp::new(2_000, 0)), Ok(()));

    assert_eq!(chain.chain.len(), 7);
    let head = chain.head().unwrap().clone();
    assert_eq!(head.previous_hash, old_head_hash);
    assert_eq!(head.index, 6);
    assert_eq!(head.txs.len(), 5);
    assert_eq!(head.txs[0].outputs[0].amount, 250 + 30 + 30 + 20 + 10);
    let included: Vec<Vec<u8>> = head.txs[1..].iter().map(|tx| tx.digest().unwrap()).collect();
    assert_eq!(
        included,
        vec![hashes[1].clone(), hashes[3].clone(), hashes[4].clone(), hashes[2].clone()]
    );
    assert_eq!(chain.unconfirmed_txs, vec![(hashes[0].clone(), 5), (hashes[5].clone(), 1)]);
    assert_eq!(chain.current_block_txs.len(), 0);
    assert_eq!(chain.db.block_index, 6);

    let verifier = TxVerifier::default();
    for height in [1usize, 2, 3, 4] {
        let again = spend(&chain, height, 3);
        assert_eq!(verifier.verify(&again, &chain.db), Err(TxError::AlreadySpent));
        let mut again = again;
        assert!(!chain._add_tx(&mut again));
    }
    for height in [0usize, 5] {
        assert_eq!(verifier.verify(&spend(&chain, height, 3), &chain.db), Ok(247));
    }
    for tx in head.txs[1..].iter() {
        let tx_hash = tx.digest().unwrap();
        assert_eq!(
            chain.db.unspent_amount(chain.wallet.public_key(), &tx_hash, &tx.outputs[0].digest()),
            Some(tx.outputs[0].amount)
        );
    }

    assert_eq!(chain.force_block_at(Timestamp::new(2_001, 0)), Ok(()));
    assert_eq!(chain.head().unwrap().txs.len(), 3);
    assert_eq!(chain.head().unwrap().txs[0].outputs[0].amount, 256);
    assert_eq!(chain.unconfirmed_txs.len(), 0);
}

#[test]
fn merged_blocks_are_linked_by_hash() {
    let mut chain = funded_chain(1337, 2);
    let other = funded_chain(420, 1);
    let rival = mined_block(
        &[other.free_tx_at(None, Timestamp::new(1_001, 5))],
        1,
        &chain.chain[0].digest().unwrap(),
        1_001,
    );
    let on_rival = mined_block(
        &[other.free_tx_at(None, Timestamp::new(1_002, 5))],
        2,
        &rival.digest().unwrap(),
        1_002,
    );
    assert_eq!(chain.add_block(&rival), Err(ChainError::ForkBuffered));
    for (hash, block) in chain.fork_blocks.entries.iter() {
        assert_eq!(block.digest().as_ref(), Some(hash));
    }
    assert_eq!(chain.add_block(&on_rival), Ok(()));
    let length = chain.chain.len();
    assert_eq!(
        Some(chain.chain[length - 1].previous_hash.clone()),
        chain.chain[length - 2].digest()
    );
}

#[test]
fn pending_pool_holds_no_entry_twice() {
    let mut chain = funded_chain(1337, 3);
    for height in 0..3 {
        let mut tx = spend(&chain, height, 240);
        assert!(chain._add_tx(&mut tx));
        let mut again = tx.clone();
        assert!(!chain._add_tx(&mut again));
    }
    assert_eq!(chain.unconfirmed_txs.len(), 3);
    for (i, entry) in chain.unconfirmed_txs.iter().enumerate() {
        for other in chain.unconfirmed_txs[i + 1..].iter() {
            assert_ne!(entry, other);
        }
    }
    assert_eq!(chain.force_block_at(Timestamp::new(3_000, 0)), Ok(()));
    assert_eq!(chain.unconfirmed_txs.len(), 0);
}

#[test]
fn commit_leaves_the_pool_less_the_batch() {
    let pool: Vec<(Vec<u8>, u64)> = (0u8..7).map(|i| entry(i, (i as u64 * 5) % 11)).collect();
    for count in 0..9 {
        let batch = select_batch(&pool, count);
        let rest = pool_without(&pool, &batch);
        assert_eq!(batch.len(), count.min(7));
        assert_eq!(rest.len(), 7 - batch.len());
        for left in rest.iter() {
            assert!(!pool_contains(&batch, left));
            for taken in batch.iter() {
                assert!(taken.1 >= left.1);
            }
        }
    }
}

#[test]
fn batch_prefers_high_fees_and_early_entries() {
    let pool = vec![entry(1, 5), entry(2, 9), entry(3, 9), entry(4, 1), entry(5, 7)];
    assert_eq!(find_best(&pool), Some(1));
    assert_eq!(find_best(&vec![]), None);
    assert_eq!(select_batch(&pool, 0), vec![]);
    assert_eq!(select_batch(&pool, 1), vec![entry(2, 9)]);
    assert_eq!(select_batch(&pool, 3), vec![entry(2, 9), entry(3, 9), entry(5, 7)]);
    assert_eq!(
        select_batch(&pool, 4),
        vec![entry(2, 9), entry(3, 9), entry(5, 7), entry(1, 5)]
    );
    assert_eq!(select_batch(&pool, 9).len(), 5);
    assert_eq!(select_batch(&vec![], 4), vec![]);
    assert_eq!(pool.len(), 5);
}

#[test]
fn pool_without_keeps_the_others_in_order() {
    let pool = vec![entry(1, 5), entry(2, 9), entry(3, 9), entry(4, 1)];
    let taken = vec![entry(3, 9), entry(1, 5), entry(8, 8)];
    assert_eq!(pool_without(&pool, &taken), vec![entry(2, 9), entry(4, 1)]);
    assert_eq!(pool_without(&pool, &vec![]), pool);
    assert_eq!(pool_without(&pool, &vec![entry(1, 6)]), pool);
    assert!(pool_contains(&pool, &entry(4, 1)));
    assert!(!pool_contains(&pool, &entry(4, 2)));
}

#[test]
fn fees_are_summed_if_they_fit() {
    assert_eq!(sum_fees(&vec![]), Some(0));
    assert_eq!(sum_fees(&vec![entry(1, 5), entry(2, 9)]), Some(14));
    assert_eq!(sum_fees(&vec![entry(1, u64::MAX), entry(2, 0)]), Some(u64::MAX));
    assert_eq!(sum_fees(&vec![entry(1, u64::MAX), entry(2, 1)]), None);
}

#[test]
fn rollover_commits_and_empties_the_chosen() {
    let mut chain = funded_chain(1337, 1);
    chain.unconfirmed_txs = vec![entry(1, 5), entry(2, 9), entry(3, 1)];
    chain.current_block_txs = vec![entry(2, 9)];
    let coinbase = chain.free_tx_at(None, Timestamp::new(1_001, 0));
    let block = Block::new_at(&[coinbase], 8, &[1], None, Timestamp::new(1_001, 0));
    chain.rollover_block(&block);
    assert_eq!(chain.unconfirmed_txs, vec![entry(1, 5), entry(3, 1)]);
    assert_eq!(chain.current_block_txs.len(), 0);
    assert_eq!(chain.db.block_index, 8);
    assert_eq!(chain.chain.len(), 1);
    assert!(chain.db.lookup_tx(&block.txs[0].digest().unwrap()).is_some());
    chain.rollback_block();
    assert_eq!(chain.chain.len(), 1);
}

#[test]
fn commit_marks_outputs_unspent_and_inputs_spent() {
    let chain = funded_chain(1337, 1);
    let coinbase = chain.chain[0].txs[0].clone();
    let coinbase_hash = coinbase.digest().unwrap();
    let owner = chain.wallet.public_key();
    let mut db = Db::new();
    apply_tx(&mut db, &coinbase);
    assert!(db.is_unspent(owner, &coinbase_hash, &coinbase.outputs[0].digest()));

    let paying = spend(&chain, 0, 200);
    let paying_hash = paying.digest().unwrap();
    let block = Block::new_at(&[paying.clone()], 4, &[1], None, Timestamp::new(1, 0));
    apply_block(&mut db, &block);
    assert_eq!(db.block_index, 4);
    assert!(!db.is_unspent(owner, &coinbase_hash, &coinbase.outputs[0].digest()));
    assert_eq!(db.unspent_amount(owner, &paying_hash, &paying.outputs[0].digest()), Some(200));
    assert!(db.lookup_tx(&paying_hash).is_some());

    let unknown = Input::new(&[7; 32], 0, Some(0), &chain.wallet);
    apply_input(&mut db, &unknown);
    let beyond = Input::new(&paying_hash, 3, Some(0), &chain.wallet);
    apply_input(&mut db, &beyond);
    assert!(db.is_unspent(owner, &paying_hash, &paying.outputs[0].digest()));
    let unbalanced = Tx::new_at(&[], &[paying.outputs[0].clone()], Timestamp::new(1, 0));
    apply_tx(&mut db, &unbalanced);
    assert_eq!(db.tx_by_hash.entries.len(), 2);
    assert_eq!(db.unspent_outputs.entries.len(), 1);
}

#[test]
fn clock_variants_use_the_time_of_the_call() {
    let mut chain = Blockchain::new(Db::default(), Wallet::from_seed(1337).unwrap());
    assert_eq!(chain.genesis_block(), Ok(()));
    assert!(chain.head().unwrap().time.secs > 1_600_000_000);
    assert!(chain.free_tx(None).time.secs > 1_600_000_000);
    assert_eq!(chain.force_block(), Ok(()));
    assert_eq!(chain.chain.len(), 2);
}
