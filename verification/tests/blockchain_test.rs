use bigdecimal::BigDecimal;
use pos_chain::block::Block;
use pos_chain::blockchain::Blockchain;
use pos_chain::election::elect;
use pos_chain::election::seed_of;
use pos_chain::election::total_stake;
use pos_chain::error::ErrorKind;
use pos_chain::stake::Stake;
use pos_chain::storage::block_storage::BlockStorage;
use pos_chain::storage::kv::KvStore;
use pos_chain::storage::kv::Record;
use pos_chain::storage::nonce_storage::NonceStorage;
use pos_chain::storage::tx_storage::TxStorage;
use pos_chain::tx::Tx;
use pos_chain::wallet::Wallet;
use std::str::FromStr;

fn empty_chain(wallet: &Wallet) -> Blockchain {
    Blockchain::new(
        wallet.clone(),
        TxStorage::new(KvStore::new()),
        BlockStorage::new(KvStore::new()),
        NonceStorage::new(KvStore::new()),
    )
}

fn genesis_tx(hash: &str, from: &str, to: &str, amount: &str) -> Tx {
    Tx {
        hash: String::from(hash),
        from: String::from(from),
        to: String::from(to),
        amount: String::from(amount),
        nonce: 1,
        timestamp: 1009227600,
        signature: String::from("GENESIS"),
        block: Some(0),
    }
}

fn manifest(wallet: &Wallet) -> Vec<Tx> {
    vec![
        genesis_tx(
            "GENESIS_133ec3db684243afafa83055a5f69a65",
            "GENESIS",
            &wallet.address(),
            "1000000",
        ),
        genesis_tx(
            "GENESIS_52a2476f72e3491d88c7e82d5aa52469",
            &wallet.address(),
            "STAKE",
            "500000",
        ),
    ]
}

fn chain_with_balance(wallet: &Wallet) -> Blockchain {
    let mut chain = empty_chain(wallet);
    chain.load_genesis(manifest(wallet)).unwrap();
    chain
}

fn stakes_of(pairs: &[(&str, &str)]) -> Vec<Stake> {
    pairs
        .iter()
        .map(|(wallet, stake)| Stake::new(String::from(*wallet), String::from(*stake)).unwrap())
        .collect()
}

#[test]
fn test_blockchain() {
    let wallet = Wallet::new();
    let mut blockchain = chain_with_balance(&wallet);

    let balance = blockchain.balance(wallet.address()).unwrap();
    assert_eq!(BigDecimal::from_str(&balance).unwrap(), BigDecimal::from(500000));

    let nonce = blockchain.nonce(wallet.address()).unwrap();
    assert_eq!(nonce, 1);

    let tx = Tx::new(&wallet, String::from("to"), String::from("100.99"), 2).unwrap();
    blockchain.add_tx(&tx).unwrap();

    let tx = Tx::new(&wallet, String::from("to"), String::from("100.99"), 2).unwrap();
    assert!(blockchain.add_tx(&tx).is_err());

    let genesis = blockchain.find_block_by_idx(0).unwrap().unwrap();
    assert!(genesis.txs.is_some());
    assert_eq!(genesis.txs.unwrap().len(), 2);
}

#[test]
fn bootstrap_from_genesis() {
    let wallet = Wallet::new();
    let chain = chain_with_balance(&wallet);
    assert_eq!(chain.balance(wallet.address()).unwrap(), "500000");
    assert_eq!(chain.nonce(wallet.address()).unwrap(), 1);
    assert_eq!(chain.nonce(String::from("GENESIS")).unwrap(), 1);
    let stakes = chain.stakes().unwrap();
    assert_eq!(stakes.len(), 1);
    assert_eq!(stakes[0].wallet(), wallet.address());
    assert_eq!(stakes[0].stake(), "500000");
    let staked = chain.wallet_stake(wallet.address()).unwrap();
    assert_eq!(staked.stake(), "500000");
    let genesis = chain.find_latest().unwrap();
    assert_eq!(genesis.idx, 0);
    assert_eq!(genesis.timestamp, 1009227600);
    assert_eq!(genesis.signature, "GENESIS");
    assert_eq!(genesis.hash_str(), Block::genesis(manifest(&wallet)).hash_str());
    assert_eq!(chain.tx_storage().find_pending().unwrap().len(), 0);
}

#[test]
fn genesis_is_loaded_once() {
    let wallet = Wallet::new();
    let mut chain = chain_with_balance(&wallet);
    let other = Wallet::new();
    chain.load_genesis(manifest(&other)).unwrap();
    assert_eq!(chain.balance(other.address()).unwrap(), "0");
    assert_eq!(chain.balance(wallet.address()).unwrap(), "500000");
    chain.load_genesis(Vec::new()).unwrap();
}

#[test]
fn empty_genesis_manifest_is_rejected() {
    let wallet = Wallet::new();
    let mut chain = empty_chain(&wallet);
    let error = chain.load_genesis(Vec::new()).unwrap_err();
    assert_eq!(error.kind, ErrorKind::InvalidInput);
    assert_eq!(error.message(), "Genesis manifest is empty");
    assert_eq!(chain.find_latest().unwrap_err().kind, ErrorKind::NotFound);
}

#[test]
fn double_submit_is_rejected() {
    let wallet = Wallet::new();
    let mut chain = chain_with_balance(&wallet);
    let tx = Tx::new(&wallet, String::from("X"), String::from("100.99"), 2).unwrap();
    chain.add_tx(&tx).unwrap();
    assert_eq!(chain.nonce(wallet.address()).unwrap(), 2);
    assert_eq!(chain.balance(wallet.address()).unwrap(), "499899.01");
    assert_eq!(chain.balance(String::from("X")).unwrap(), "100.99");
    assert_eq!(chain.tx_storage().find_pending().unwrap(), vec![tx.clone()]);
    let again = Tx::new(&wallet, String::from("X"), String::from("100.99"), 2).unwrap();
    let error = chain.add_tx(&again).unwrap_err();
    assert_eq!(error.kind, ErrorKind::InvalidInput);
    assert_eq!(error.message(), "Invalid nonce value, expected: 3");
    let error = chain.add_tx(&tx).unwrap_err();
    assert!(error.message().contains("expected: 3"));
    assert_eq!(chain.nonce(wallet.address()).unwrap(), 2);
    assert_eq!(chain.tx_storage().find_pending().unwrap().len(), 1);
}

#[test]
fn nonce_counts_admitted_transactions() {
    let wallet = Wallet::new();
    let mut chain = chain_with_balance(&wallet);
    let other = Wallet::new();
    for nonce in 2..6 {
        let tx = Tx::new(&wallet, other.address(), String::from("1"), nonce).unwrap();
        chain.add_tx(&tx).unwrap();
        assert_eq!(chain.nonce(wallet.address()).unwrap(), nonce);
        assert_eq!(chain.nonce(other.address()).unwrap(), 0);
    }
    let skipped = Tx::new(&wallet, other.address(), String::from("1"), 7).unwrap();
    assert_eq!(
        chain.add_tx(&skipped).unwrap_err().message(),
        "Invalid nonce value, expected: 6"
    );
    let back = Tx::new(&other, wallet.address(), String::from("4"), 1).unwrap();
    chain.add_tx(&back).unwrap();
    assert_eq!(chain.nonce(other.address()).unwrap(), 1);
    assert_eq!(chain.nonce(wallet.address()).unwrap(), 5);
    assert_eq!(chain.balance(other.address()).unwrap(), "0");
    assert_eq!(chain.balance(wallet.address()).unwrap(), "500000");
}

#[test]
fn exhausted_nonce_rejects_every_transaction() {
    let wallet = Wallet::new();
    let mut nonces = NonceStorage::new(KvStore::new());
    nonces.save(wallet.address(), u64::MAX).unwrap();
    let mut chain = Blockchain::new(
        wallet.clone(),
        TxStorage::new(KvStore::new()),
        BlockStorage::new(KvStore::new()),
        nonces,
    );
    let tx = Tx::new(&wallet, String::from("X"), String::from("0"), 0).unwrap();
    let error = chain.add_tx(&tx).unwrap_err();
    assert_eq!(error.kind, ErrorKind::InvalidInput);
    assert_eq!(error.message(), "Invalid nonce value, expected: none");
}

#[test]
fn invalid_signature_is_rejected() {
    let wallet = Wallet::new();
    let mut chain = chain_with_balance(&wallet);
    let mut tx = Tx::new(&wallet, String::from("X"), String::from("1"), 2).unwrap();
    tx.amount = String::from("2");
    let error = chain.add_tx(&tx).unwrap_err();
    assert_eq!(error.kind, ErrorKind::InvalidInput);
    assert_eq!(error.message(), "Invalid transaction signature");
    let mut genesis = genesis_tx("GENESIS_1", "GENESIS", "X", "5");
    genesis.nonce = 2;
    assert_eq!(
        chain.add_tx(&genesis).unwrap_err().message(),
        "Invalid transaction signature"
    );
    assert_eq!(chain.tx_storage().find_pending().unwrap().len(), 0);
}

#[test]
fn overdraft_is_rejected() {
    let wallet = Wallet::new();
    let mut chain = chain_with_balance(&wallet);
    let tx = Tx::new(&wallet, String::from("X"), String::from("500000.01"), 2).unwrap();
    let error = chain.add_tx(&tx).unwrap_err();
    assert_eq!(error.kind, ErrorKind::InvalidInput);
    assert_eq!(error.message(), "Not enough balance, current: 500000");
    let all = Tx::new(&wallet, String::from("X"), String::from("500000"), 2).unwrap();
    chain.add_tx(&all).unwrap();
    assert_eq!(chain.balance(wallet.address()).unwrap(), "0");
    let more = Tx::new(&wallet, String::from("STAKE"), String::from("1"), 3).unwrap();
    assert_eq!(
        chain.add_tx(&more).unwrap_err().message(),
        "Not enough balance, current: 0"
    );
}

#[test]
fn stake_underflow_is_rejected() {
    let wallet = Wallet::new();
    let mut chain = chain_with_balance(&wallet);
    let tx = Tx::new(&wallet, String::from("UNSTAKE"), String::from("600000"), 2).unwrap();
    let error = chain.add_tx(&tx).unwrap_err();
    assert_eq!(error.kind, ErrorKind::InvalidInput);
    assert_eq!(error.message(), "Not enough stake");
    assert_eq!(chain.nonce(wallet.address()).unwrap(), 1);
}

#[test]
fn unstake_wants_a_whole_amount() {
    let wallet = Wallet::new();
    let mut chain = chain_with_balance(&wallet);
    let tx = Tx::new(&wallet, String::from("UNSTAKE"), String::from("10.5"), 2).unwrap();
    let error = chain.add_tx(&tx).unwrap_err();
    assert_eq!(error.kind, ErrorKind::InvalidInput);
    assert_eq!(error.message(), "The value must be an integer");
    let whole = Tx::new(&wallet, String::from("UNSTAKE"), String::from("10.0"), 2).unwrap();
    chain.add_tx(&whole).unwrap();
}

#[test]
fn unstake_credits_the_sender_and_lowers_the_stake() {
    let wallet = Wallet::new();
    let mut chain = chain_with_balance(&wallet);
    let tx = Tx::new(&wallet, String::from("UNSTAKE"), String::from("499995"), 2).unwrap();
    chain.add_tx(&tx).unwrap();
    assert_eq!(chain.balance(wallet.address()).unwrap(), "999995");
    assert!(chain.wallet_stake(wallet.address()).is_none());
    assert_eq!(chain.stakes().unwrap().len(), 0);
    let rest = Tx::new(&wallet, String::from("UNSTAKE"), String::from("5"), 3).unwrap();
    assert_eq!(chain.add_tx(&rest).unwrap_err().message(), "Not enough stake");
    let stake = Tx::new(&wallet, String::from("STAKE"), String::from("5"), 3).unwrap();
    chain.add_tx(&stake).unwrap();
    assert_eq!(chain.wallet_stake(wallet.address()).unwrap().stake(), "10");
    assert_eq!(chain.balance(wallet.address()).unwrap(), "999990");
}

#[test]
fn stakes_are_listed_by_wallet() {
    let wallet = Wallet::new();
    let mut chain = empty_chain(&wallet);
    let mut txs = Vec::new();
    for (hash, from, to, amount) in [
        ("1", "carol", "STAKE", "30"),
        ("2", "alice", "STAKE", "4"),
        ("3", "bob", "STAKE", "25.9"),
        ("4", "alice", "STAKE", "6"),
        ("5", "bob", "UNSTAKE", "5"),
        ("6", "dave", "STAKE", "9"),
        ("7", "erin", "UNSTAKE", "1"),
        ("8", "STAKE", "frank", "100"),
    ] {
        txs.push(genesis_tx(hash, from, to, amount));
    }
    chain.load_genesis(txs).unwrap();
    let stakes = chain.stakes().unwrap();
    let listed: Vec<(String, String)> = stakes.iter().map(|s| (s.wallet(), s.stake())).collect();
    assert_eq!(
        listed,
        vec![
            (String::from("alice"), String::from("10")),
            (String::from("bob"), String::from("20")),
            (String::from("carol"), String::from("30")),
        ]
    );
    assert_eq!(total_stake(&stakes), "60");
    assert!(chain.wallet_stake(String::from("dave")).is_none());
    assert_eq!(chain.wallet_stake(String::from("bob")).unwrap().stake(), "20");
    assert_eq!(chain.balance(String::from("bob")).unwrap(), "-20.9");
}

#[test]
fn unreadable_amount_fails_balance_and_stakes() {
    let wallet = Wallet::new();
    let mut chain = empty_chain(&wallet);
    chain.load_genesis(vec![genesis_tx("1", "alice", "STAKE", "much")]).unwrap();
    let error = chain.balance(String::from("alice")).unwrap_err();
    assert_eq!(error.kind, ErrorKind::Storage);
    assert_eq!(error.message(), "Invalid amount");
    assert_eq!(chain.stakes().unwrap_err().message(), "Invalid amount");
    assert!(chain.wallet_stake(String::from("alice")).is_none());
    assert_eq!(chain.balance(String::from("bob")).unwrap(), "0");
}

#[test]
fn stake_below_the_minimum_is_none() {
    assert!(Stake::new(String::from("w"), String::from("9")).is_none());
    assert!(Stake::new(String::from("w"), String::from("0")).is_none());
    assert!(Stake::new(String::from("w"), String::from("-10")).is_none());
    assert!(Stake::new(String::from("w"), String::from("10.5")).is_none());
    assert!(Stake::new(String::from("w"), String::from("")).is_none());
    let stake = Stake::new(String::from("alice"), String::from("25")).unwrap();
    assert_eq!(stake.wallet(), "alice");
    assert_eq!(stake.stake(), "25");
    assert_eq!(stake.clone().stake(), "25");
    assert_eq!(
        hex::encode(stake.hash()),
        "5adac0bd7275ab390dd409114c7fb956710c9dc590624a143d90c396a53bda5b"
    );
    let big = Stake::new(String::from("w"), String::from("123456789012345678901234567890")).unwrap();
    assert_eq!(total_stake(&vec![big.clone(), big]), "246913578024691357802469135780");
    assert_eq!(total_stake(&Vec::new()), "0");
    let signed = Stake::new(String::from("alice"), String::from("+25")).unwrap();
    assert_eq!(signed.stake(), "25");
    assert_eq!(signed.hash(), stake.hash());
    let padded = Stake::new(String::from("alice"), String::from("0010")).unwrap();
    assert_eq!(padded.stake(), "10");
}

#[test]
fn deterministic_election() {
    let stakes = stakes_of(&[("A", "10"), ("B", "20"), ("C", "30")]);
    let total = total_stake(&stakes);
    assert_eq!(total, "60");
    for (ticket, winner) in [
        (0u64, "A"),
        (9, "A"),
        (10, "B"),
        (29, "B"),
        (30, "C"),
        (59, "C"),
        (60, "A"),
        (18446744073709551615, "B"),
    ] {
        assert_eq!(elect(&stakes, &total, ticket), winner);
        assert_eq!(elect(&stakes, &total, ticket), elect(&stakes, &total, ticket));
    }
    assert_eq!(elect(&Vec::new(), &String::from("0"), 7), "");
    assert_eq!(elect(&stakes, &String::from("0"), 7), "");
    assert_eq!(elect(&stakes, &String::from("-5"), 7), "");
    assert_eq!(elect(&stakes, &String::from("many"), 7), "");
    assert_eq!(elect(&stakes, &String::from("5"), 7), "A");
}

#[test]
fn election_seed_depends_on_block_and_stakes() {
    let wallet = Wallet::new();
    let block = Block::genesis(manifest(&wallet));
    let stakes = stakes_of(&[("A", "10"), ("B", "20"), ("C", "30")]);
    let seed = seed_of(&block, &stakes).unwrap();
    assert_eq!(seed_of(&block, &stakes), Some(seed));
    assert_eq!(seed_of(&block, &Vec::new()), None);
    let other = stakes_of(&[("A", "10"), ("B", "20"), ("C", "31")]);
    assert_ne!(seed_of(&block, &other), Some(seed));
    let next = Block::new_at(&wallet, 1, block.hash_str(), Vec::new(), 5).unwrap();
    assert_ne!(seed_of(&next, &stakes), Some(seed));
}

#[test]
fn two_nodes_elect_the_same_validator() {
    let wallet = Wallet::new();
    let other = Wallet::new();
    let mut first = empty_chain(&wallet);
    let mut second = empty_chain(&other);
    let mut txs = manifest(&wallet);
    txs.push(genesis_tx("3", &other.address(), "STAKE", "500000"));
    first.load_genesis(txs.clone()).unwrap();
    second.load_genesis(txs.clone()).unwrap();
    let a = first.proof_of_stake().is_ok();
    let b = second.proof_of_stake().is_ok();
    assert_ne!(a, b);
    for ticket in [0u64, 1, 499999, 500000, 999999, 1000000, 77777777777] {
        let mut first = empty_chain(&wallet);
        let mut second = empty_chain(&other);
        first.load_genesis(txs.clone()).unwrap();
        second.load_genesis(txs.clone()).unwrap();
        let a = first.proof_of_stake_with(ticket, 50);
        let b = second.proof_of_stake_with(ticket, 50);
        assert_ne!(a.is_ok(), b.is_ok());
        let lower = wallet.address() < other.address();
        assert_eq!(a.is_ok(), lower == (ticket % 1000000 < 500000));
    }
}

#[test]
fn slot_passes_where_another_validator_is_elected() {
    let wallet = Wallet::new();
    let other = Wallet::new();
    let mut chain = empty_chain(&other);
    chain.load_genesis(manifest(&wallet)).unwrap();
    let error = chain.proof_of_stake_with(3, 50).unwrap_err();
    assert_eq!(error.kind, ErrorKind::NotElected);
    assert_eq!(error.message(), "Other validator selected");
    assert_eq!(chain.proof_of_stake().unwrap_err().kind, ErrorKind::NotElected);
    assert_eq!(chain.find_latest().unwrap().idx, 0);
    let mut idle = empty_chain(&wallet);
    assert_eq!(idle.proof_of_stake().unwrap_err().kind, ErrorKind::NotFound);
    idle.load_genesis(vec![genesis_tx("1", "GENESIS", "X", "5")]).unwrap();
    assert_eq!(idle.proof_of_stake().unwrap_err().kind, ErrorKind::NotElected);
}

#[test]
fn elected_validator_creates_a_block() {
    let wallet = Wallet::new();
    let mut chain = chain_with_balance(&wallet);
    let tx = Tx::new(&wallet, String::from("X"), String::from("1"), 2).unwrap();
    chain.add_tx(&tx).unwrap();
    let genesis = chain.find_latest().unwrap();
    let block = chain.proof_of_stake().unwrap();
    assert_eq!(block.idx, 1);
    assert_eq!(block.parent_hash, genesis.hash_str());
    assert_eq!(block.validator, wallet.address());
    assert_eq!(block.txs, Some(vec![tx]));
    let next = chain.proof_of_stake_with(12345, 77).unwrap();
    assert_eq!(next.idx, 2);
    assert_eq!(next.timestamp, 77);
    assert_eq!(next.parent_hash, block.hash_str());
    assert_eq!(next.txs, Some(Vec::new()));
}

#[test]
fn pending_transactions_move_into_the_created_block() {
    let wallet = Wallet::new();
    let mut chain = chain_with_balance(&wallet);
    let mut pending = Vec::new();
    for nonce in 2..7 {
        let tx = Tx::new(&wallet, String::from("X"), String::from("1.25"), nonce).unwrap();
        chain.add_tx(&tx).unwrap();
        pending.push(tx);
    }
    assert_eq!(chain.tx_storage().find_pending().unwrap(), pending);
    let parent = chain.find_latest().unwrap();
    let block = chain.create_block_at(1700000000).unwrap();
    assert_eq!(block.idx, 1);
    assert_eq!(block.timestamp, 1700000000);
    assert_eq!(block.parent_hash, parent.hash_str());
    assert_eq!(block.txs, Some(pending.clone()));
    assert_eq!(block.merkle_root, pos_chain::block::merkle_root_of(&pending));
    assert_eq!(chain.tx_storage().find_pending().unwrap().len(), 0);
    let moved = chain.tx_storage().find_by_block_idx(1).unwrap();
    assert_eq!(moved.len(), 5);
    for (tx, was) in moved.iter().zip(pending.iter()) {
        assert_eq!(tx.block, Some(1));
        assert_eq!(tx.hash, was.hash);
    }
    assert_eq!(chain.find_latest().unwrap().idx, 1);
    assert_eq!(chain.find_latest().unwrap().hash_str(), block.hash_str());
    let full = chain.find_block_by_idx(1).unwrap().unwrap();
    assert_eq!(full.txs, Some(moved));
    assert_eq!(chain.find_block_by_idx(2).unwrap(), None);
    assert_eq!(chain.balance(wallet.address()).unwrap(), "499993.75");
    let empty = chain.create_block().unwrap();
    assert_eq!(empty.idx, 2);
    assert_eq!(empty.parent_hash, block.hash_str());
    assert_eq!(empty.merkle_root, "0".repeat(64));
}

#[test]
fn created_blocks_are_linked_to_their_parents() {
    let wallet = Wallet::new();
    let mut chain = chain_with_balance(&wallet);
    for time in 1..6 {
        chain.create_block_at(time).unwrap();
    }
    for idx in 1..6 {
        let block = chain.block_storage().find_by_idx(idx).unwrap().unwrap();
        let parent = chain.block_storage().find_by_idx(idx - 1).unwrap().unwrap();
        assert_eq!(block.idx, idx);
        assert_eq!(block.parent_hash, parent.hash_str());
    }
    assert_eq!(chain.find_latest().unwrap().idx, 5);
}

#[test]
fn create_block_needs_a_latest_block_below_the_last_index() {
    let wallet = Wallet::new();
    let mut chain = empty_chain(&wallet);
    let error = chain.create_block().unwrap_err();
    assert_eq!(error.kind, ErrorKind::NotFound);
    let last = Block::new_at(&wallet, u64::MAX, String::from("p"), Vec::new(), 1).unwrap();
    chain.add_block(&last).unwrap();
    let error = chain.create_block_at(5).unwrap_err();
    assert_eq!(error.kind, ErrorKind::InvalidInput);
    assert_eq!(error.message(), "Block index exhausted");
}

#[test]
fn add_block_saves_transactions_and_block_unchecked() {
    let wallet = Wallet::new();
    let mut chain = empty_chain(&wallet);
    let mut tx = genesis_tx("h", "alice", "bob", "3");
    tx.block = Some(7);
    let block = Block::new_at(&wallet, 7, String::from("nowhere"), vec![tx.clone()], 9).unwrap();
    chain.add_block(&block).unwrap();
    chain.add_block(&block).unwrap();
    assert_eq!(chain.find_latest().unwrap().idx, 7);
    assert_eq!(chain.find_block_by_idx(7).unwrap().unwrap().txs, Some(vec![tx]));
    assert_eq!(chain.balance(String::from("bob")).unwrap(), "3");
    assert_eq!(chain.nonce(String::from("alice")).unwrap(), 0);
    let mut stripped = block.clone();
    stripped.txs = None;
    stripped.idx = 8;
    chain.add_block(&stripped).unwrap();
    assert_eq!(chain.find_block_by_idx(8).unwrap().unwrap().txs, Some(Vec::new()));
}

#[test]
fn wrong_record_stops_the_ledger_with_storage() {
    let wallet = Wallet::new();
    let mut store = KvStore::new();
    store.put(String::from("tx.STAKE"), Record::Number(1));
    let mut chain = Blockchain::new(
        wallet.clone(),
        TxStorage::new(store),
        BlockStorage::new(KvStore::new()),
        NonceStorage::new(KvStore::new()),
    );
    let error = chain.load_genesis(manifest(&wallet)).unwrap_err();
    assert_eq!(error.kind, ErrorKind::Storage);
    assert_eq!(chain.find_latest().unwrap_err().kind, ErrorKind::NotFound);
    assert_eq!(chain.stakes().unwrap_err().kind, ErrorKind::Storage);
    assert_eq!(chain.balance(String::from("STAKE")).unwrap_err().kind, ErrorKind::Storage);
    assert_eq!(chain.nonce_storage().get(String::from("GENESIS")).unwrap(), 1);
    assert_eq!(chain.nonce(wallet.address()).unwrap(), 0);
}

fn signed_with_amount(wallet: &Wallet, to: &str, amount: &str, nonce: u64) -> Tx {
    let mut tx = Tx::new(wallet, String::from(to), String::from("1"), nonce).unwrap();
    tx.amount = String::from(amount);
    tx.hash = tx.hash_str();
    tx.signature = wallet.sign(&tx.hash()).unwrap();
    tx
}

#[test]
fn negative_amount_is_rejected() {
    let wallet = Wallet::new();
    let mut chain = chain_with_balance(&wallet);
    let tx = signed_with_amount(&wallet, "to", "-5", 2);
    let error = chain.add_tx(&tx).unwrap_err();
    assert_eq!(error.kind, ErrorKind::InvalidInput);
    assert_eq!(error.message(), "Invalid transaction signature");
    assert_eq!(chain.balance(wallet.address()).unwrap(), "500000");
    assert_eq!(chain.nonce(wallet.address()).unwrap(), 1);
    let unstake = signed_with_amount(&wallet, "UNSTAKE", "-5", 2);
    assert_eq!(chain.add_tx(&unstake).unwrap_err().kind, ErrorKind::InvalidInput);
}

#[test]
fn amounts_with_exponents_from_peers_fail_without_panic() {
    let wallet = Wallet::new();
    let mut chain = empty_chain(&wallet);
    chain
        .load_genesis(vec![
            genesis_tx("1", "alice", "bob", "1e-9223372036854775807"),
            genesis_tx("2", "alice", "bob", "1e9223372036854775807"),
            genesis_tx("3", "carol", "STAKE", "1e9223372036854775808"),
            genesis_tx("4", "dave", "erin", "-5"),
        ])
        .unwrap();
    for name in ["alice", "bob", "carol", "dave", "erin"] {
        let error = chain.balance(String::from(name)).unwrap_err();
        assert_eq!(error.kind, ErrorKind::Storage);
        assert_eq!(error.message(), "Invalid amount");
    }
    assert!(chain.wallet_stake(String::from("carol")).is_none());
    assert_eq!(chain.stakes().unwrap_err().message(), "Invalid amount");
    let tx = Tx::new(&wallet, String::from("X"), String::from("0"), 1).unwrap();
    chain.add_tx(&tx).unwrap();
}

#[test]
fn balance_is_printed_in_plain_form() {
    let wallet = Wallet::new();
    let mut chain = empty_chain(&wallet);
    chain
        .load_genesis(vec![
            genesis_tx("1", "GENESIS", "alice", "100000000000000000000000000000000000000000"),
            genesis_tx("2", "alice", "bob", "0.000000000000000000000000000000000000001"),
            genesis_tx("3", "bob", "carol", "1.50"),
        ])
        .unwrap();
    assert_eq!(
        chain.balance(String::from("alice")).unwrap(),
        "99999999999999999999999999999999999999999.999999999999999999999999999999999999999"
    );
    assert_eq!(
        chain.balance(String::from("bob")).unwrap(),
        "-1.499999999999999999999999999999999999999"
    );
    assert_eq!(chain.balance(String::from("carol")).unwrap(), "1.50");
}

#[test]
fn add_block_below_the_latest_leaves_the_latest() {
    let wallet = Wallet::new();
    let mut chain = chain_with_balance(&wallet);
    let first = chain.create_block_at(1).unwrap();
    let second = chain.create_block_at(2).unwrap();
    chain.add_block(&first).unwrap();
    assert_eq!(chain.find_latest().unwrap().hash_str(), second.hash_str());
    assert_eq!(chain.create_block_at(3).unwrap().idx, 3);
}

#[test]
fn create_block_keeps_what_the_block_set_held() {
    let wallet = Wallet::new();
    let mut chain = chain_with_balance(&wallet);
    let mut early = genesis_tx("early", "alice", "bob", "3");
    early.block = Some(1);
    let foreign = Block::new_at(&wallet, 0, String::from("x"), vec![early.clone()], 9).unwrap();
    chain.add_block(&foreign).unwrap();
    let tx = Tx::new(&wallet, String::from("X"), String::from("1"), 2).unwrap();
    chain.add_tx(&tx).unwrap();
    let block = chain.create_block_at(5).unwrap();
    assert_eq!(block.idx, 1);
    let filed = chain.tx_storage().find_by_block_idx(1).unwrap();
    assert_eq!(filed.len(), 2);
    assert_eq!(filed[0], early);
    assert_eq!(filed[1].hash, tx.hash);
}
