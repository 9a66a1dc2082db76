use pos_chain::block::merkle_root_of;
use pos_chain::block::Block;
use pos_chain::tx::Tx;
use pos_chain::wallet::Wallet;
use sha2::Digest;

fn sample(nonce: u64) -> Tx {
    Tx {
        hash: String::new(),
        from: String::from("alice"),
        to: String::from("bob"),
        amount: String::from("1.5"),
        nonce,
        timestamp: 1700000000,
        signature: String::new(),
        block: None,
    }
}

#[test]
fn test_genesis_block_creation() {
    let wallet = Wallet::new();
    let mut txs = Vec::new();
    let tx = Tx::new(&wallet, wallet.address(), String::from("1"), 1).unwrap();
    txs.push(tx);

    let block1 = Block::genesis(txs.clone());
    assert_eq!(block1.idx, 0);

    let block2 = Block::genesis(txs);
    assert_eq!(block2.idx, 0);

    assert_eq!(block1.hash(), block2.hash());
    assert_eq!(block1.hash_str(), block2.hash_str());
}

#[test]
fn test_new_block_creation() {
    let wallet = Wallet::new();
    let mut txs = Vec::new();
    let tx = Tx::new(&wallet, wallet.address(), String::from("1"), 1).unwrap();
    txs.push(tx);

    let genesis = Block::genesis(txs.clone());
    let block = Block::new(&wallet, 1, genesis.hash_str(), txs).unwrap();
    assert_eq!(block.idx, 1);
    assert_eq!(block.parent_hash, genesis.hash_str());
    assert_eq!(block.validator, wallet.address());
}

#[test]
fn genesis_block_has_fixed_fields_and_hash() {
    let block = Block::genesis(vec![sample(7)]);
    assert_eq!(block.idx, 0);
    assert_eq!(block.timestamp, 1700000000);
    assert_eq!(block.validator, "0".repeat(66));
    assert_eq!(block.parent_hash, "0".repeat(64));
    assert_eq!(
        block.merkle_root,
        "e9dac120f1ff6c9cd81bfb44f92f06fcebe61e32b8d140f107c2d98897707bbd"
    );
    assert_eq!(block.signature, "GENESIS");
    assert_eq!(block.txs().unwrap().len(), 1);
    assert_eq!(
        block.hash_str(),
        "7e467abbc8d2bb3f9ce058ca82fe60508b67847d1dc60cc67cd7e5cee667c71b"
    );
    assert_eq!(hex::encode(block.hash()), block.hash_str());
}

#[test]
fn merkle_root_of_no_transactions_is_zero() {
    assert_eq!(merkle_root_of(&Vec::new()), "0".repeat(64));
    let wallet = Wallet::new();
    let block = Block::new_at(&wallet, 1, String::from("parent"), Vec::new(), 5).unwrap();
    assert_eq!(block.merkle_root, hex::encode([0u8; 32]));
}

#[test]
fn merkle_root_of_two_transactions_hashes_the_pair() {
    let a = sample(1);
    let b = sample(2);
    let mut hasher = sha2::Sha256::new();
    hasher.update(a.hash());
    hasher.update(b.hash());
    let pair: [u8; 32] = hasher.finalize().into();
    assert_eq!(merkle_root_of(&vec![a.clone(), b]), hex::encode(pair));
    assert_eq!(merkle_root_of(&vec![a.clone()]), a.hash_str());
}

#[test]
fn new_block_is_signed_by_its_validator() {
    let wallet = Wallet::new();
    let block = Block::new_at(&wallet, 3, String::from("parent"), vec![sample(1)], 99).unwrap();
    assert_eq!(block.idx, 3);
    assert_eq!(block.timestamp, 99);
    assert_eq!(block.parent_hash, "parent");
    assert_eq!(block.merkle_root, merkle_root_of(&vec![sample(1)]));
    assert_eq!(block.signature, wallet.sign(&block.hash()).unwrap());
    let signature: [u8; 64] = hex::decode(&block.signature).unwrap().try_into().unwrap();
    let key: [u8; 33] = hex::decode(&block.validator).unwrap().try_into().unwrap();
    assert!(libsecp256k1::verify(
        &libsecp256k1::Message::parse(&block.hash()),
        &libsecp256k1::Signature::parse_standard(&signature).unwrap(),
        &libsecp256k1::PublicKey::parse_compressed(&key).unwrap(),
    ));
}

#[test]
fn block_hash_ignores_transactions_and_signature() {
    let wallet = Wallet::new();
    let mut block = Block::new_at(&wallet, 3, String::from("parent"), vec![sample(1)], 99).unwrap();
    let before = block.hash_str();
    block.txs = None;
    block.signature = String::new();
    assert_eq!(block.hash_str(), before);
    assert_eq!(block.txs(), None);
    block.idx = 4;
    assert_ne!(block.hash_str(), before);
}
