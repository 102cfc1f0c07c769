use pow_ledger::blockchain::Blockchain;
use pow_ledger::clock::Timestamp;
use pow_ledger::db::Db;
use pow_ledger::genesis_hash;
use pow_ledger::miner::mine;
use pow_ledger::transactions::{Block, Input, Output, Tx};
use pow_ledger::verifiers::{
    check_reward, hash_meets_target, sum_outputs, verify_block, BlockVerificationState,
    BlockVerifier, TxError, TxVerifier,
};
use pow_ledger::wallet::Wallet;

fn coinbase(wallet: &Wallet, amount: u64, secs: u64) -> Tx {
    let mut input = Input::new(&genesis_hash(), 0, Some(0), wallet);
    let input_hash = input.hash().unwrap();
    let output = Output::new(wallet.public_key(), amount, &[&input_hash[..]]);
    Tx::new_at(&[input], &[output], Timestamp::new(secs, 0))
}

fn spend(wallet: &Wallet, source: &Tx, pay: u64, secs: u64) -> Tx {
    let mut input = Input::new(&source.digest().unwrap(), 0, Some(0), wallet);
    let input_hash = input.hash().unwrap();
    let output = Output::new(wallet.public_key(), pay, &[&input_hash[..]]);
    Tx::new_at(&[input], &[output], Timestamp::new(secs, 0))
}

fn store_with(wallet_tx: &Tx) -> Db {
    let mut db = Db::default();
    assert!(db.record_committed_tx(wallet_tx));
    let tx_hash = wallet_tx.digest().unwrap();
    for output in wallet_tx.outputs.iter() {
        db.mark_output_unspent(&output.address, &tx_hash, &output.digest(), output.amount);
    }
    db
}

fn mined_block(txs: &[Tx], index: u32, previous_hash: &[u8], secs: u64) -> Block {
    let mut block = Block::new_at(txs, index, previous_hash, None, Timestamp::new(secs, 0));
    assert!(mine(&mut block).is_some());
    block
}

#[test]
fn test_verifier() {
    let mut db = Db::default();
    let wallet_1 = Wallet::from_seed(1337).unwrap();
    let verifier = TxVerifier::default();

    let mut input = Input::new(&genesis_hash(), 0, Some(0), &wallet_1);
    let input_hash = input.hash().unwrap();
    let output = Output::new(wallet_1.public_key(), 250, &[&input_hash[..]]);
    let mut tx = Tx::new(&[input], &[output]);

    let fee = verifier.verify(&tx, &db).unwrap();
    assert_eq!(fee, 0);

    let tx_hash = tx.hash().unwrap();
    for output in tx.outputs.iter_mut() {
        let output_hash = output.hash().unwrap();
        db.mark_output_unspent(wallet_1.public_key(), &tx_hash, &output_hash, output.amount);
    }
    assert!(db.record_committed_tx(&tx));

    let mut input_2 = Input::new(&tx.hash().unwrap(), 0, Some(0), &wallet_1);
    let input_2_hash = input_2.hash().unwrap();
    let output_2 = Output::new(wallet_1.public_key(), 250, &[&input_2_hash[..]]);
    let tx_2 = Tx::new(&[input_2], &[output_2]);
    let fee = verifier.verify(&tx_2, &db).unwrap();
    assert_eq!(fee, 0);
}

#[test]
fn coinbase_fee_is_reward_minus_outputs() {
    let wallet = Wallet::from_seed(1337).unwrap();
    let verifier = TxVerifier::default();
    let db = Db::default();
    assert_eq!(verifier.verify(&coinbase(&wallet, 250, 1), &db), Ok(0));
    assert_eq!(verifier.verify(&coinbase(&wallet, 100, 1), &db), Ok(150));
    assert_eq!(verifier.verify(&coinbase(&wallet, 0, 1), &db), Ok(250));
    assert_eq!(verifier.verify(&coinbase(&wallet, 251, 1), &db), Err(TxError::InsufficientFunds));
}

#[test]
fn spend_fee_is_input_minus_outputs() {
    let wallet = Wallet::from_seed(1337).unwrap();
    let source = coinbase(&wallet, 250, 1);
    let db = store_with(&source);
    let verifier = TxVerifier::default();
    assert_eq!(verifier.verify(&spend(&wallet, &source, 250, 2), &db), Ok(0));
    assert_eq!(verifier.verify(&spend(&wallet, &source, 249, 2), &db), Ok(1));
    assert_eq!(verifier.verify(&spend(&wallet, &source, 0, 2), &db), Ok(250));
}

#[test]
fn insufficient_funds_are_refused() {
    let wallet = Wallet::from_seed(1337).unwrap();
    let source = coinbase(&wallet, 250, 1);
    let db = store_with(&source);
    let verifier = TxVerifier::default();
    assert_eq!(
        verifier.verify(&spend(&wallet, &source, 251, 2), &db),
        Err(TxError::InsufficientFunds)
    );
    assert_eq!(
        verifier.verify(&spend(&wallet, &source, u64::MAX, 2), &db),
        Err(TxError::InsufficientFunds)
    );
    let mut many = spend(&wallet, &source, 200, 2);
    many.outputs.push(Output::new(wallet.public_key(), u64::MAX, &[]));
    many.outputs.push(Output::new(wallet.public_key(), u64::MAX, &[]));
    assert_eq!(verifier.verify(&many, &db), Err(TxError::InsufficientFunds));
}

#[test]
fn missing_reference_is_refused() {
    let wallet = Wallet::from_seed(1337).unwrap();
    let source = coinbase(&wallet, 250, 1);
    let verifier = TxVerifier::default();
    assert_eq!(
        verifier.verify(&spend(&wallet, &source, 250, 2), &Db::default()),
        Err(TxError::MissingReference)
    );
    let db = store_with(&source);
    let mut beyond = spend(&wallet, &source, 250, 2);
    beyond.inputs[0].output_idx = 1;
    assert_eq!(verifier.verify(&beyond, &db), Err(TxError::MissingReference));
}

#[test]
fn genesis_reference_counts_only_at_the_first_place() {
    let wallet = Wallet::from_seed(1337).unwrap();
    let verifier = TxVerifier::default();
    let mut tx = coinbase(&wallet, 250, 1);
    let second = Input::new(&genesis_hash(), 0, Some(1), &wallet);
    tx.inputs.push(second);
    assert_eq!(verifier.verify(&tx, &Db::default()), Err(TxError::MissingReference));
}

#[test]
fn spent_output_is_refused() {
    let wallet = Wallet::from_seed(1337).unwrap();
    let source = coinbase(&wallet, 250, 1);
    let mut db = store_with(&source);
    let verifier = TxVerifier::default();
    let tx = spend(&wallet, &source, 250, 2);
    assert_eq!(verifier.verify(&tx, &db), Ok(0));
    db.mark_output_spent(
        wallet.public_key(),
        &source.digest().unwrap(),
        &source.outputs[0].digest(),
    );
    assert_eq!(verifier.verify(&tx, &db), Err(TxError::AlreadySpent));
    assert_eq!(verifier.verify(&spend(&wallet, &source, 1, 3), &db), Err(TxError::AlreadySpent));
}

#[test]
fn bad_signature_is_refused() {
    let owner = Wallet::from_seed(1337).unwrap();
    let thief = Wallet::from_seed(420).unwrap();
    let source = coinbase(&owner, 250, 1);
    let db = store_with(&source);
    let verifier = TxVerifier::default();
    assert_eq!(verifier.verify(&spend(&thief, &source, 250, 2), &db), Err(TxError::BadSignature));
    let mut tampered = spend(&owner, &source, 250, 2);
    tampered.inputs[0].idx = 1;
    assert_eq!(verifier.verify(&tampered, &db), Err(TxError::BadSignature));
    let mut garbage = spend(&owner, &source, 250, 2);
    garbage.inputs[0].signature = vec![1, 2, 3];
    assert_eq!(verifier.verify(&garbage, &db), Err(TxError::BadSignature));
    let mut unsigned = spend(&owner, &source, 250, 2);
    unsigned.inputs[0].signature = Vec::new();
    assert_eq!(verifier.verify(&unsigned, &db), Err(TxError::BadSignature));
}

#[test]
fn first_refused_input_decides() {
    let wallet = Wallet::from_seed(1337).unwrap();
    let thief = Wallet::from_seed(420).unwrap();
    let source = coinbase(&wallet, 250, 1);
    let db = store_with(&source);
    let verifier = TxVerifier::default();
    let mut tx = spend(&thief, &source, 1000, 2);
    let unknown = Input::new(&[5; 32], 0, Some(1), &wallet);
    tx.inputs.push(unknown);
    assert_eq!(verifier.verify(&tx, &db), Err(TxError::BadSignature));
    tx.inputs.swap(0, 1);
    assert_eq!(verifier.verify(&tx, &db), Err(TxError::MissingReference));
}

#[test]
fn fee_beyond_64_bits_is_refused() {
    let wallet = Wallet::from_seed(1337).unwrap();
    let mut source = coinbase(&wallet, u64::MAX, 1);
    source.outputs.push(Output::new(wallet.public_key(), u64::MAX, &[]));
    source.hash = Some(vec![3; 32]);
    let db = store_with(&source);
    let first = Input::new(&source.hash.clone().unwrap(), 0, Some(0), &wallet);
    let second = Input::new(&source.hash.clone().unwrap(), 1, Some(1), &wallet);
    let output = Output::new(wallet.public_key(), 5, &[]);
    let verifier = TxVerifier::default();
    let tx = Tx::new_at(&[first.clone(), second.clone()], &[output], Timestamp::new(2, 0));
    assert_eq!(verifier.verify(&tx, &db), Err(TxError::FeeOverflow));
    let all = Output::new(wallet.public_key(), u64::MAX, &[]);
    let tx = Tx::new_at(&[first, second], &[all.clone(), all], Timestamp::new(2, 0));
    assert_eq!(verifier.verify(&tx, &db), Ok(0));
}

#[test]
fn outputs_are_summed_without_overflow() {
    let wallet = Wallet::from_seed(1337).unwrap();
    let one = Output::new(wallet.public_key(), u64::MAX, &[]);
    assert_eq!(sum_outputs(&vec![]), 0);
    assert_eq!(sum_outputs(&vec![one.clone(), one.clone(), one]), 3 * (u64::MAX as u128));
}

#[test]
fn target_asks_for_a_zero_byte_and_a_small_byte() {
    assert!(hash_meets_target(&Some(vec![0, 0x0f, 200])));
    assert!(hash_meets_target(&Some(vec![0, 0])));
    assert!(!hash_meets_target(&Some(vec![0, 0x10])));
    assert!(!hash_meets_target(&Some(vec![1, 0])));
    assert!(!hash_meets_target(&Some(vec![0])));
    assert!(!hash_meets_target(&Some(vec![])));
    assert!(!hash_meets_target(&None));
}

#[test]
fn mined_block_meets_the_target_with_the_least_nonce() {
    let wallet = Wallet::from_seed(1337).unwrap();
    let mut block = Block::new_at(&[coinbase(&wallet, 250, 1)], 0, &[0], None, Timestamp::new(1, 0));
    let nonce = mine(&mut block).unwrap();
    assert_eq!(block.nonce, nonce);
    assert!(hash_meets_target(&block.digest()));
    assert!(block.merkel_root.is_some());
    let mut again = Block::new_at(&[coinbase(&wallet, 250, 1)], 0, &[0], Some(77), Timestamp::new(1, 0));
    for lower in 0..nonce {
        assert!(!hash_meets_target(&again.hash(Some(lower))));
    }
    assert_eq!(mine(&mut again), Some(nonce));
    assert_eq!(again.digest(), block.digest());
}

#[test]
fn mining_leaves_the_least_nonce_of_all() {
    let wallet = Wallet::from_seed(420).unwrap();
    for secs in [1u64, 2, 3] {
        let mut block =
            Block::new_at(&[coinbase(&wallet, 250, secs)], 0, &[0], Some(u32::MAX), Timestamp::new(secs, 0));
        let found = mine(&mut block).unwrap();
        assert!(hash_meets_target(&block.digest()));
        assert_eq!(block.nonce, found);
        let mut probe = block.clone();
        for lower in 0..found {
            assert!(!hash_meets_target(&probe.hash(Some(lower))));
        }
    }
}

#[test]
fn block_without_hash_cannot_be_mined() {
    let mut block = Block::new_at(&[], 0, &[0], Some(5), Timestamp::new(1, 0));
    assert_eq!(mine(&mut block), None);
    assert_eq!(block.nonce, 5);
}

#[test]
fn block_verdicts_in_their_order() {
    let wallet = Wallet::from_seed(1337).unwrap();
    let db = Db::default();
    let head = mined_block(&[coinbase(&wallet, 250, 10)], 0, &[0], 10);
    let head_hash = head.digest().unwrap();

    let good = mined_block(&[coinbase(&wallet, 250, 11)], 1, &head_hash, 11);
    assert_eq!(verify_block(&db, &head, &good), BlockVerificationState::Success);

    let mut off_target = good.clone();
    while hash_meets_target(&off_target.digest()) {
        off_target.nonce += 1;
    }
    assert_eq!(verify_block(&db, &head, &off_target), BlockVerificationState::WrongDifficulty);

    let greedy = mined_block(&[coinbase(&wallet, 251, 11)], 1, &head_hash, 11);
    assert_eq!(verify_block(&db, &head, &greedy), BlockVerificationState::WrongRewardSum);
    let modest = mined_block(&[coinbase(&wallet, 249, 11)], 1, &head_hash, 11);
    assert_eq!(verify_block(&db, &head, &modest), BlockVerificationState::WrongRewardSum);

    let low = mined_block(&[coinbase(&wallet, 250, 11)], 0, &head_hash, 11);
    assert_eq!(verify_block(&db, &head, &low), BlockVerificationState::WrongIdx);

    let unlinked = mined_block(&[coinbase(&wallet, 250, 11)], 1, &[1, 2, 3], 11);
    assert_eq!(verify_block(&db, &head, &unlinked), BlockVerificationState::WrongHead);

    let old = mined_block(&[coinbase(&wallet, 250, 9)], 1, &head_hash, 9);
    assert_eq!(verify_block(&db, &head, &old), BlockVerificationState::WrongTime);

    let same_time = mined_block(&[coinbase(&wallet, 250, 10)], 7, &head_hash, 10);
    assert_eq!(verify_block(&db, &head, &same_time), BlockVerificationState::Success);

    let low_and_old = mined_block(&[coinbase(&wallet, 250, 9)], 0, &[1], 9);
    assert_eq!(verify_block(&db, &head, &low_and_old), BlockVerificationState::WrongIdx);
}

#[test]
fn block_verifier_uses_its_own_store() {
    let wallet = Wallet::from_seed(1337).unwrap();
    let source = coinbase(&wallet, 250, 5);
    let head = mined_block(&[coinbase(&wallet, 250, 10)], 0, &[0], 10);
    let head_hash = head.digest().unwrap();
    let paying = spend(&wallet, &source, 240, 11);
    let block = mined_block(&[coinbase(&wallet, 260, 11), paying], 1, &head_hash, 11);

    let knowing = BlockVerifier::new(store_with(&source));
    assert_eq!(knowing.verify(&head, &block), BlockVerificationState::Success);
    assert!(check_reward(&knowing.db, &block.txs));
    let ignorant = BlockVerifier::new(Db::default());
    assert_eq!(ignorant.verify(&head, &block), BlockVerificationState::WrongRewardSum);
}

#[test]
fn reward_must_match_reward_and_fees() {
    let wallet = Wallet::from_seed(1337).unwrap();
    let source = coinbase(&wallet, 250, 5);
    let db = store_with(&source);
    let paying = spend(&wallet, &source, 240, 11);
    assert!(check_reward(&db, &vec![coinbase(&wallet, 260, 11), paying.clone()]));
    assert!(!check_reward(&db, &vec![coinbase(&wallet, 250, 11), paying.clone()]));
    assert!(!check_reward(&db, &vec![coinbase(&wallet, 261, 11), paying]));
    assert!(check_reward(&db, &vec![coinbase(&wallet, 250, 11)]));
    assert!(!check_reward(&db, &vec![]));
    let overdrawn = spend(&wallet, &source, 300, 11);
    assert!(!check_reward(&db, &vec![coinbase(&wallet, 250, 11), overdrawn]));
}

#[test]
fn head_of_chain_is_checked_like_any_head() {
    let wallet = Wallet::from_seed(1337).unwrap();
    let mut chain = Blockchain::new(Db::default(), wallet);
    assert_eq!(chain.genesis_block_at(Timestamp::new(10, 0)), Ok(()));
    let head = chain.head().unwrap();
    let next = mined_block(
        &[chain.free_tx_at(None, Timestamp::new(11, 0))],
        1,
        &head.digest().unwrap(),
        11,
    );
    assert_eq!(verify_block(&chain.db, head, &next), BlockVerificationState::Success);
}
