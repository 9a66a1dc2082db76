use pos_chain::block::Block;
use pos_chain::error::ErrorKind;
use pos_chain::storage::block_storage::BlockStorage;
use pos_chain::storage::kv::KvStore;
use pos_chain::storage::kv::Record;
use pos_chain::storage::nonce_storage::NonceStorage;
use pos_chain::storage::tx_storage::TxStorage;
use pos_chain::tx::Tx;
use pos_chain::wallet::Wallet;

fn sample(amount: &str, timestamp: u64, block: Option<u64>) -> Tx {
    Tx {
        hash: String::new(),
        from: String::from("alice"),
        to: String::from("bob"),
        amount: String::from(amount),
        nonce: 1,
        timestamp,
        signature: String::new(),
        block,
    }
}

fn hashes(store: &KvStore, key: &str) -> Vec<String> {
    match store.get(&String::from(key)) {
        Some(Record::Hashes(hashes)) => hashes.clone(),
        Some(_) => panic!("another kind of record"),
        None => Vec::new(),
    }
}

#[test]
fn test_block_save() {
    let wallet = Wallet::new();
    let tx = Tx::new(&wallet, wallet.address(), String::from("0.001"), 1).unwrap();
    let txs = vec![tx];
    let block = Block::genesis(txs);

    let mut block_storage = BlockStorage::new(KvStore::new());
    block_storage.save(&block).unwrap();

    if let Some(found) = block_storage.find_by_idx(0).unwrap() {
        assert_eq!(found.hash_str(), block.hash_str());
    } else {
        assert!(false, "Not found");
    }

    if let Some(found) = block_storage.find_by_hash(block.hash_str()).unwrap() {
        assert_eq!(found.hash_str(), block.hash_str());
    } else {
        assert!(false, "Not found");
    }

    if let Ok(latest) = block_storage.find_latest() {
        assert_eq!(block.hash_str(), latest.hash_str());
    } else {
        assert!(false, "Not found");
    }
}

#[test]
fn test_nonce_save_get() {
    let mut nonce_storage = NonceStorage::new(KvStore::new());
    let value = 90;
    nonce_storage.save(String::from("wallet"), value).unwrap();
    let found = nonce_storage.get(String::from("wallet")).unwrap();
    assert_eq!(value, found);
    let zero = nonce_storage.get(String::from("wallet1")).unwrap();
    assert_eq!(zero, 0);
}

#[test]
fn test_tx_storage_save_find_by_hash() {
    let mut tx_storage = TxStorage::new(KvStore::new());
    let from = Wallet::new();
    let to = Wallet::new();
    let tx = Tx::new(&from, to.address(), String::from("10"), 1).unwrap();
    tx_storage.save(&tx).unwrap();
    if let Some(found) = tx_storage.find_by_hash(tx.hash_str()).unwrap() {
        assert_eq!(found, tx);
    } else {
        assert!(false);
    }
    if let Ok(found) = tx_storage.find_wallet_txs(tx.from()) {
        assert_eq!(found.len(), 1);
    } else {
        assert!(false);
    }
    if let None = tx_storage.find_by_hash(String::from("")).unwrap() {
        assert!(true);
    } else {
        assert!(false);
    }
    let tx = Tx::new(&from, to.address(), String::from("1"), 1).unwrap();
    tx_storage.save(&tx).unwrap();
    if let Ok(found) = tx_storage.find_wallet_txs(tx.from()) {
        assert_eq!(found.len(), 2);
    } else {
        assert!(false);
    }
    let txs = tx_storage.find_wallet_txs(String::from("wallet")).unwrap();
    assert_eq!(txs.len(), 0);

    let pending = tx_storage.find_pending().unwrap();
    assert_eq!(pending.len(), 2);

    tx_storage.update_pending(&pending, 1).unwrap();
    let txs = tx_storage.find_pending().unwrap();
    assert_eq!(txs.len(), 0);
}

#[test]
fn update_pending() {
    let wallet = Wallet::new();
    let tx = Tx::new(&wallet, wallet.address(), String::from("10"), 1).unwrap();
    let mut tx_storage = TxStorage::new(KvStore::new());
    tx_storage.save(&tx).unwrap();
    let txs = tx_storage.find_pending().unwrap();
    assert_eq!(txs.len(), 1);
    tx_storage.update_pending(&txs, 1).unwrap();
    let txs = tx_storage.find_pending().unwrap();
    assert_eq!(txs.len(), 0);
}

#[test]
fn store_holds_the_last_record_put_under_a_key() {
    let mut store = KvStore::new();
    assert!(store.get(&String::from("a")).is_none());
    store.put(String::from("a"), Record::Number(1));
    store.put(String::from("b"), Record::Number(2));
    store.put(String::from("a"), Record::Number(3));
    assert_eq!(store.get(&String::from("a")), Some(&Record::Number(3)));
    assert_eq!(store.get(&String::from("b")), Some(&Record::Number(2)));
    assert!(store.get(&String::from("c")).is_none());
    let mut keys = store.keys();
    keys.sort();
    assert_eq!(keys, vec![String::from("a"), String::from("b")]);
    assert_eq!(Record::Number(3).clone(), Record::Number(3));
}

#[test]
fn nonce_storage_keeps_nonces_under_prefixed_keys() {
    let mut nonce_storage = NonceStorage::new(KvStore::new());
    nonce_storage.save(String::from("wallet"), 5).unwrap();
    nonce_storage.save(String::from("wallet"), 2).unwrap();
    assert_eq!(nonce_storage.get(String::from("wallet")).unwrap(), 2);
    assert_eq!(nonce_storage.db().get(&String::from("nonce.wallet")), Some(&Record::Number(2)));
    assert_eq!(nonce_storage.db().keys(), vec![String::from("nonce.wallet")]);
}

#[test]
fn nonce_storage_reports_a_record_of_the_wrong_kind() {
    let mut store = KvStore::new();
    store.put(String::from("nonce.wallet"), Record::Hashes(Vec::new()));
    let nonce_storage = NonceStorage::new(store);
    let error = nonce_storage.get(String::from("wallet")).unwrap_err();
    assert_eq!(error.kind, ErrorKind::Storage);
    assert_eq!(error.message(), "Unexpected record");
}

#[test]
fn block_storage_keeps_blocks_without_transactions() {
    let block = Block::genesis(vec![sample("1", 50, Some(0))]);
    let mut block_storage = BlockStorage::new(KvStore::new());
    block_storage.save(&block).unwrap();
    let found = block_storage.find_by_idx(0).unwrap().unwrap();
    assert_eq!(found.txs, None);
    assert_eq!(found.merkle_root, block.merkle_root);
    assert_eq!(found.signature, "GENESIS");
    let db = block_storage.db();
    assert_eq!(db.get(&String::from("block.latest")), Some(&Record::Number(0)));
    assert_eq!(db.get(&format!("block.{}", block.hash_str())), Some(&Record::Number(0)));
    assert_eq!(db.get(&String::from("block.0")), Some(&Record::Block(found)));
    assert_eq!(db.keys().len(), 3);
}

#[test]
fn block_storage_latest_follows_the_last_save() {
    let wallet = Wallet::new();
    let mut block_storage = BlockStorage::new(KvStore::new());
    let error = block_storage.find_latest().unwrap_err();
    assert_eq!(error.kind, ErrorKind::NotFound);
    assert_eq!(error.message(), "Block block not found");
    assert_eq!(block_storage.find_by_idx(0).unwrap(), None);
    assert_eq!(block_storage.find_by_hash(String::from("00")).unwrap(), None);
    let first = Block::new_at(&wallet, 12, String::from("p"), Vec::new(), 1).unwrap();
    let second = Block::new_at(&wallet, 18446744073709551615, first.hash_str(), Vec::new(), 2).unwrap();
    block_storage.save(&first).unwrap();
    block_storage.save(&second).unwrap();
    assert_eq!(block_storage.find_latest().unwrap().idx, 18446744073709551615);
    assert_eq!(block_storage.find_by_idx(12).unwrap().unwrap().hash_str(), first.hash_str());
    assert!(block_storage.db().get(&String::from("block.18446744073709551615")).is_some());
    assert!(block_storage.db().get(&String::from("block.12")).is_some());
    assert_eq!(block_storage.find_by_idx(1).unwrap(), None);
}

#[test]
fn block_storage_latest_is_the_highest_index_saved() {
    let wallet = Wallet::new();
    let mut block_storage = BlockStorage::new(KvStore::new());
    let high = Block::new_at(&wallet, 9, String::from("p"), Vec::new(), 1).unwrap();
    let low = Block::new_at(&wallet, 4, String::from("q"), Vec::new(), 2).unwrap();
    block_storage.save(&high).unwrap();
    block_storage.save(&low).unwrap();
    assert_eq!(block_storage.find_latest().unwrap().hash_str(), high.hash_str());
    assert_eq!(block_storage.db().get(&String::from("block.latest")), Some(&Record::Number(9)));
    assert_eq!(block_storage.find_by_idx(4).unwrap().unwrap().hash_str(), low.hash_str());
    assert_eq!(block_storage.find_by_hash(low.hash_str()).unwrap().unwrap().idx, 4);
    assert_eq!(block_storage.find_by_hash(low.hash_str()).unwrap().unwrap().txs, None);
    block_storage.save(&high).unwrap();
    assert_eq!(block_storage.find_latest().unwrap().idx, 9);
    let higher = Block::new_at(&wallet, 10, high.hash_str(), Vec::new(), 3).unwrap();
    block_storage.save(&higher).unwrap();
    assert_eq!(block_storage.find_latest().unwrap().idx, 10);
}

#[test]
fn block_storage_does_not_save_over_an_unreadable_latest() {
    let wallet = Wallet::new();
    let mut store = KvStore::new();
    store.put(String::from("block.latest"), Record::Hashes(Vec::new()));
    let mut block_storage = BlockStorage::new(store);
    let block = Block::new_at(&wallet, 1, String::from("p"), Vec::new(), 1).unwrap();
    let error = block_storage.save(&block).unwrap_err();
    assert_eq!(error.kind, ErrorKind::Storage);
    assert_eq!(block_storage.find_by_idx(1).unwrap(), None);
    assert_eq!(block_storage.db().keys().len(), 1);
}

#[test]
fn block_storage_reports_a_record_of_the_wrong_kind() {
    let mut store = KvStore::new();
    store.put(String::from("block.7"), Record::Number(7));
    store.put(String::from("block.latest"), Record::Hashes(Vec::new()));
    store.put(String::from("block.abc"), Record::Number(9));
    let block_storage = BlockStorage::new(store);
    assert_eq!(block_storage.find_by_idx(7).unwrap_err().kind, ErrorKind::Storage);
    assert_eq!(block_storage.find_latest().unwrap_err().kind, ErrorKind::Storage);
    assert_eq!(block_storage.find_by_hash(String::from("7")).unwrap_err().kind, ErrorKind::Storage);
    assert_eq!(block_storage.find_by_hash(String::from("abc")).unwrap(), None);
}

#[test]
fn tx_storage_save_is_idempotent() {
    let mut tx_storage = TxStorage::new(KvStore::new());
    let tx = sample("1", 10, None);
    tx_storage.save(&tx).unwrap();
    let keys_once = tx_storage.db().keys();
    tx_storage.save(&tx).unwrap();
    assert_eq!(tx_storage.db().keys(), keys_once);
    assert_eq!(hashes(tx_storage.db(), "tx.alice"), vec![tx.hash_str()]);
    assert_eq!(hashes(tx_storage.db(), "tx.bob"), vec![tx.hash_str()]);
    assert_eq!(hashes(tx_storage.db(), "tx.empty"), vec![tx.hash_str()]);
    assert_eq!(tx_storage.find_wallet_txs(String::from("alice")).unwrap().len(), 1);
    assert_eq!(tx_storage.find_pending().unwrap(), vec![tx.clone()]);
    assert_eq!(
        tx_storage.db().get(&format!("tx.{}", tx.hash_str())),
        Some(&Record::Tx(tx))
    );
}

#[test]
fn tx_storage_files_a_transaction_under_its_block() {
    let mut tx_storage = TxStorage::new(KvStore::new());
    let tx = sample("1", 10, Some(42));
    tx_storage.save(&tx).unwrap();
    assert_eq!(tx_storage.find_pending().unwrap().len(), 0);
    assert_eq!(tx_storage.find_by_block_idx(42).unwrap(), vec![tx.clone()]);
    assert_eq!(tx_storage.find_by_block_idx(4).unwrap().len(), 0);
    assert_eq!(hashes(tx_storage.db(), "tx.42"), vec![tx.hash_str()]);
}

#[test]
fn tx_storage_orders_wallet_transactions() {
    let mut tx_storage = TxStorage::new(KvStore::new());
    let mut late = sample("1", 30, None);
    late.hash = late.hash_str();
    let mut early = sample("2", 10, None);
    early.hash = early.hash_str();
    let mut middle_a = sample("3", 20, None);
    middle_a.hash = String::from("a");
    let mut middle_b = sample("4", 20, None);
    middle_b.hash = String::from("b");
    let mut middle_again = sample("5", 20, None);
    middle_again.hash = String::from("a");
    for tx in [&late, &middle_b, &early, &middle_a, &middle_again] {
        tx_storage.save(tx).unwrap();
    }
    let found = tx_storage.find_wallet_txs(String::from("alice")).unwrap();
    assert_eq!(found, vec![early, middle_a, middle_b, late]);
    assert_eq!(tx_storage.find_pending().unwrap().len(), 5);
}

#[test]
fn tx_storage_update_pending_parts_the_moved_from_the_pending() {
    let mut tx_storage = TxStorage::new(KvStore::new());
    let mut a = sample("1", 10, None);
    a.hash = a.hash_str();
    let mut b = sample("2", 10, None);
    b.hash = b.hash_str();
    let mut c = sample("3", 10, None);
    c.hash = c.hash_str();
    for tx in [&a, &b, &c] {
        tx_storage.save(tx).unwrap();
    }
    tx_storage.update_pending(&vec![a.clone(), c.clone()], 3).unwrap();
    assert_eq!(tx_storage.find_pending().unwrap(), vec![b.clone()]);
    let moved = tx_storage.find_by_block_idx(3).unwrap();
    assert_eq!(moved.len(), 2);
    for tx in moved.iter() {
        assert_eq!(tx.block, Some(3));
    }
    assert_eq!(moved[0].hash_str(), a.hash_str());
    assert_eq!(moved[1].hash_str(), c.hash_str());
    assert_eq!(tx_storage.find_by_hash(a.hash_str()).unwrap().unwrap().block, Some(3));
    assert_eq!(tx_storage.find_by_hash(b.hash_str()).unwrap().unwrap().block, None);
    assert_eq!(tx_storage.find_wallet_txs(String::from("alice")).unwrap().len(), 3);
}

#[test]
fn tx_storage_update_pending_adds_to_the_block_set() {
    let mut tx_storage = TxStorage::new(KvStore::new());
    let a = sample("1", 10, Some(3));
    let b = sample("2", 10, None);
    tx_storage.save(&a).unwrap();
    tx_storage.save(&b).unwrap();
    tx_storage.update_pending(&vec![b.clone(), b.clone()], 3).unwrap();
    assert_eq!(hashes(tx_storage.db(), "tx.3"), vec![a.hash_str(), b.hash_str()]);
    assert_eq!(hashes(tx_storage.db(), "tx.empty"), Vec::<String>::new());
    tx_storage.update_pending(&Vec::new(), 3).unwrap();
    assert_eq!(tx_storage.find_by_block_idx(3).unwrap().len(), 2);
    assert_eq!(hashes(tx_storage.db(), "tx.3"), vec![a.hash_str(), b.hash_str()]);
}

#[test]
fn tx_storage_update_pending_needs_a_readable_block_set() {
    let tx = sample("1", 10, None);
    let mut store = KvStore::new();
    store.put(String::from("tx.4"), Record::Number(1));
    let mut tx_storage = TxStorage::new(store);
    tx_storage.save(&tx).unwrap();
    let error = tx_storage.update_pending(&vec![tx.clone()], 4).unwrap_err();
    assert_eq!(error.kind, ErrorKind::Storage);
    assert_eq!(tx_storage.find_pending().unwrap(), vec![tx.clone()]);
    assert_eq!(tx_storage.find_by_hash(tx.hash_str()).unwrap().unwrap().block, None);
}

#[test]
fn tx_storage_reports_a_record_of_the_wrong_kind() {
    let tx = sample("1", 10, None);
    let mut store = KvStore::new();
    store.put(String::from("tx.bob"), Record::Number(1));
    let mut tx_storage = TxStorage::new(store);
    let error = tx_storage.save(&tx).unwrap_err();
    assert_eq!(error.kind, ErrorKind::Storage);
    assert_eq!(hashes(tx_storage.db(), "tx.alice"), vec![tx.hash_str()]);
    assert_eq!(hashes(tx_storage.db(), "tx.empty"), Vec::<String>::new());
    assert_eq!(tx_storage.find_wallet_txs(String::from("bob")).unwrap_err().kind, ErrorKind::Storage);
    assert_eq!(tx_storage.find_by_hash(String::from("alice")).unwrap_err().kind, ErrorKind::Storage);

    let mut store = KvStore::new();
    store.put(String::from("tx.empty"), Record::Number(1));
    let mut tx_storage = TxStorage::new(store);
    assert_eq!(tx_storage.find_pending().unwrap_err().kind, ErrorKind::Storage);
    assert_eq!(tx_storage.update_pending(&vec![tx.clone()], 1).unwrap_err().kind, ErrorKind::Storage);
    assert_eq!(tx_storage.find_by_hash(tx.hash_str()).unwrap(), None);

    let mut store = KvStore::new();
    store.put(String::from("tx.5"), Record::Hashes(vec![String::from("5"), String::from("gone")]));
    let tx_storage = TxStorage::new(store);
    assert_eq!(tx_storage.find_by_block_idx(5).unwrap_err().kind, ErrorKind::Storage);
}

#[test]
fn tx_storage_passes_over_a_hash_without_a_transaction() {
    let tx = sample("1", 10, None);
    let mut store = KvStore::new();
    store.put(String::from("tx.empty"), Record::Hashes(vec![String::from("gone"), tx.hash_str()]));
    store.put(format!("tx.{}", tx.hash_str()), Record::Tx(tx.clone()));
    let tx_storage = TxStorage::new(store);
    assert_eq!(tx_storage.find_pending().unwrap(), vec![tx]);
}
