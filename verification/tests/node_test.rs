use pos_chain::block::Block;
use pos_chain::blockchain::Blockchain;
use pos_chain::config::Config;
use pos_chain::config::DEFAULT_CONFIG_PATH;
use pos_chain::error::Error;
use pos_chain::error::ErrorKind;
use pos_chain::node::Action;
use pos_chain::node::BlockRequest;
use pos_chain::node::Event;
use pos_chain::node::Node;
use pos_chain::node::NonceRequest;
use pos_chain::node::SyncStep;
use pos_chain::storage::block_storage::BlockStorage;
use pos_chain::storage::kv::KvStore;
use pos_chain::storage::kv::Record;
use pos_chain::storage::nonce_storage::NonceStorage;
use pos_chain::storage::tx_storage::TxStorage;
use pos_chain::tx::Tx;
use pos_chain::wallet::Wallet;

fn manifest(wallet: &Wallet) -> Vec<Tx> {
    let genesis = |hash: &str, from: &str, to: &str, amount: &str| Tx {
        hash: String::from(hash),
        from: String::from(from),
        to: String::from(to),
        amount: String::from(amount),
        nonce: 1,
        timestamp: 1009227600,
        signature: String::from("GENESIS"),
        block: Some(0),
    };
    vec![
        genesis("GENESIS_1", "GENESIS", &wallet.address(), "1000000"),
        genesis("GENESIS_2", &wallet.address(), "STAKE", "500000"),
    ]
}

fn node_of(validator: &Wallet, staker: &Wallet) -> Node {
    let mut chain = Blockchain::new(
        validator.clone(),
        TxStorage::new(KvStore::new()),
        BlockStorage::new(KvStore::new()),
        NonceStorage::new(KvStore::new()),
    );
    chain.load_genesis(manifest(staker)).unwrap();
    Node::new(chain)
}

fn config(path: &str) -> Config {
    let path = String::from(path);
    Config::new(
        path.clone() + "/.keystore",
        path.clone() + "/.keystore",
        8080,
        path.clone() + "/.storage",
        path.clone() + "/genesis.json",
        vec![],
    )
}

fn wallet() -> Wallet {
    let wallet = Wallet::new();
    let sealed = wallet.write(b"password").unwrap();
    Wallet::read(&sealed, b"password").unwrap()
}

#[test]
fn config_keeps_its_parts() {
    let config = config("/tmp/node");
    assert_eq!(config.keystore_path(), "/tmp/node/.keystore");
    assert_eq!(config.validator(), "/tmp/node/.keystore");
    assert_eq!(config.port(), 8080);
    assert_eq!(config.storage_path(), "/tmp/node/.storage");
    assert_eq!(config.genesis_path(), "/tmp/node/genesis.json");
    assert!(config.nodes().is_empty());
    let other = Config::new(
        String::from("k"),
        String::from("v"),
        -1,
        String::from("s"),
        String::from("g"),
        vec![String::from("/ip4/127.0.0.1/tcp/8081"), String::from("b")],
    );
    assert_eq!(other.nodes(), vec![String::from("/ip4/127.0.0.1/tcp/8081"), String::from("b")]);
    assert_eq!(other.clone().port(), -1);
    assert_eq!(DEFAULT_CONFIG_PATH, "run/config.json");
}

#[test]
fn error_carries_kind_and_message() {
    let error = Error::new(ErrorKind::Protocol, "Cannot publish");
    assert_eq!(error.kind(), ErrorKind::Protocol);
    assert_eq!(error.message(), "Cannot publish");
    let detailed = Error::with_detail(ErrorKind::NotFound, "No key file: ", "abc");
    assert_eq!(detailed.kind, ErrorKind::NotFound);
    assert_eq!(detailed.message, "No key file: abc");
}

#[test]
fn nonce_request_is_answered_with_the_last_nonce() {
    let wallet = wallet();
    let mut node = node_of(&wallet, &wallet);
    let request = NonceRequest { address: wallet.address() };
    assert_eq!(node.on_nonce_request(&request).unwrap().nonce, 1);
    match node.handle(Event::NonceRequested(NonceRequest { address: String::from("nobody") })) {
        Action::RespondNonce(response) => assert_eq!(response.nonce, 0),
        other => panic!("{:?}", other),
    }
}

#[test]
fn nonce_request_is_not_answered_where_the_nonce_cannot_be_read() {
    let wallet = wallet();
    let mut store = KvStore::new();
    store.put(String::from("nonce.w"), Record::Hashes(Vec::new()));
    let chain = Blockchain::new(
        wallet,
        TxStorage::new(KvStore::new()),
        BlockStorage::new(KvStore::new()),
        NonceStorage::new(store),
    );
    let mut node = Node::new(chain);
    assert!(node.on_nonce_request(&NonceRequest { address: String::from("w") }).is_none());
    assert!(matches!(
        node.handle(Event::NonceRequested(NonceRequest { address: String::from("w") })),
        Action::Nothing
    ));
}

#[test]
fn admitted_transaction_is_answered_and_published() {
    let wallet = wallet();
    let mut node = node_of(&wallet, &wallet);
    let tx = Tx::new(&wallet, String::from("X"), String::from("100.99"), 2).unwrap();
    match node.handle(Event::TxRequested(tx.clone())) {
        Action::RespondTx(response, publish) => {
            assert_eq!(response.error, None);
            assert_eq!(publish, Some(tx.clone()));
        }
        other => panic!("{:?}", other),
    }
    assert_eq!(node.blockchain().nonce(wallet.address()).unwrap(), 2);
    match node.handle(Event::TxRequested(tx)) {
        Action::RespondTx(response, publish) => {
            assert_eq!(response.error, Some(String::from("Invalid nonce value, expected: 3")));
            assert_eq!(publish, None);
        }
        other => panic!("{:?}", other),
    }
    assert_eq!(node.blockchain().tx_storage().find_pending().unwrap().len(), 1);
}

#[test]
fn published_transaction_is_admitted_silently() {
    let wallet = wallet();
    let mut node = node_of(&wallet, &wallet);
    let tx = Tx::new(&wallet, String::from("X"), String::from("1"), 2).unwrap();
    assert!(matches!(node.handle(Event::TxReceived(tx.clone())), Action::Nothing));
    assert!(matches!(node.handle(Event::TxReceived(tx.clone())), Action::Nothing));
    assert_eq!(node.blockchain().tx_storage().find_pending().unwrap(), vec![tx]);
    assert_eq!(node.blockchain().nonce(wallet.address()).unwrap(), 2);
}

#[test]
fn block_request_is_answered_with_the_full_block() {
    let wallet = wallet();
    let mut node = node_of(&wallet, &wallet);
    match node.handle(Event::BlockRequested(BlockRequest { idx: 0 })) {
        Action::RespondBlock(response) => {
            let block = response.block.unwrap();
            assert_eq!(block.idx, 0);
            assert_eq!(block.txs.unwrap().len(), 2);
        }
        other => panic!("{:?}", other),
    }
    match node.handle(Event::BlockRequested(BlockRequest { idx: 1 })) {
        Action::RespondBlock(response) => assert_eq!(response.block, None),
        other => panic!("{:?}", other),
    }
    assert!(node.on_block_request(&BlockRequest { idx: 0 }).unwrap().block.is_some());
}

#[test]
fn published_block_is_admitted() {
    let wallet = wallet();
    let mut producer = node_of(&wallet, &wallet);
    let mut follower = node_of(&Wallet::new(), &wallet);
    let tx = Tx::new(&wallet, String::from("X"), String::from("1"), 2).unwrap();
    producer.on_tx_message(&tx);
    let block = match producer.handle(Event::Tick) {
        Action::PublishBlock(block) => block,
        other => panic!("{:?}", other),
    };
    assert_eq!(block.idx, 1);
    assert!(matches!(follower.handle(Event::BlockReceived(block.clone())), Action::Nothing));
    assert_eq!(follower.blockchain().find_latest().unwrap().hash_str(), block.hash_str());
    assert_eq!(follower.blockchain().balance(String::from("X")).unwrap(), "1");
    assert!(matches!(follower.handle(Event::Tick), Action::Nothing));
    assert_eq!(follower.on_tick_with(5, 6), None);
    assert_eq!(follower.on_tick(), None);
    assert_eq!(producer.on_tick_with(5, 6).unwrap().idx, 2);
    follower.on_block_message(&Block::genesis(manifest(&wallet)));
    assert_eq!(follower.blockchain().find_latest().unwrap().idx, 1);
}

#[test]
fn catch_up_sync() {
    let wallet = wallet();
    let mut ahead = node_of(&wallet, &wallet);
    for nonce in 2..7 {
        let tx = Tx::new(&wallet, String::from("X"), String::from("2"), nonce).unwrap();
        ahead.on_tx_message(&tx);
        assert!(ahead.on_tick_with(nonce, 1700000000 + nonce).is_some());
    }
    assert_eq!(ahead.blockchain().find_latest().unwrap().idx, 5);

    let mut behind = node_of(&Wallet::new(), &wallet);
    let mut request = behind.sync_start().unwrap();
    let mut asked = Vec::new();
    loop {
        asked.push(request.idx);
        let response = ahead.on_block_request(&request).unwrap();
        match behind.sync_step(response.block).unwrap() {
            SyncStep::Request(next) => request = next,
            SyncStep::Done => break,
        }
    }
    assert_eq!(asked, vec![1, 2, 3, 4, 5, 6]);
    assert_eq!(behind.blockchain().find_latest().unwrap().idx, 5);
    for idx in 0..6 {
        let theirs = ahead.blockchain().find_block_by_idx(idx).unwrap().unwrap();
        let ours = behind.blockchain().find_block_by_idx(idx).unwrap().unwrap();
        assert_eq!(ours.hash_str(), theirs.hash_str());
        assert_eq!(ours, theirs);
    }
    assert_eq!(behind.blockchain().balance(String::from("X")).unwrap(), "10");
    assert_eq!(behind.blockchain().tx_storage().find_pending().unwrap().len(), 0);
}

#[test]
fn sync_needs_a_latest_block() {
    let wallet = wallet();
    let chain = Blockchain::new(
        wallet.clone(),
        TxStorage::new(KvStore::new()),
        BlockStorage::new(KvStore::new()),
        NonceStorage::new(KvStore::new()),
    );
    let mut node = Node::new(chain);
    assert_eq!(node.sync_start().unwrap_err().kind, ErrorKind::NotFound);
    assert!(matches!(node.sync_step(None), Ok(SyncStep::Done)));
    let last = Block::new_at(&wallet, u64::MAX, String::from("p"), Vec::new(), 1).unwrap();
    let error = node.sync_step(Some(last)).unwrap_err();
    assert_eq!(error.kind, ErrorKind::InvalidInput);
    assert_eq!(node.blockchain().find_latest().unwrap().idx, u64::MAX);
}
