use pos_chain::numeric::is_amount_text;
use pos_chain::tx::Tx;
use pos_chain::wallet::Wallet;
use std::cmp::Ordering;

fn sample(hash: &str, timestamp: u64) -> Tx {
    Tx {
        hash: String::from(hash),
        from: String::from("alice"),
        to: String::from("bob"),
        amount: String::from("1.5"),
        nonce: 7,
        timestamp,
        signature: String::new(),
        block: None,
    }
}

#[test]
fn tx_test_test_new_tx() {
    let from = Wallet::new();
    let to = Wallet::new();
    let tx = Tx::new(&from, to.address(), String::from("0.0001"), 1).unwrap();
    assert!(tx.valid());
}

#[test]
fn new_tx_is_pending_and_carries_its_fields() {
    let from = Wallet::new();
    let tx = Tx::new_at(&from, String::from("bob"), String::from("12.50"), 4, 1700000000).unwrap();
    assert_eq!(tx.from(), from.address());
    assert_eq!(tx.to(), "bob");
    assert_eq!(tx.amount(), "12.50");
    assert_eq!(tx.nonce(), 4);
    assert_eq!(tx.timestamp, 1700000000);
    assert_eq!(tx.block, None);
    assert_eq!(tx.hash, tx.hash_str());
    assert_eq!(tx.signature, from.sign(&tx.hash()).unwrap());
    assert_eq!(tx.signature.len(), 128);
}

#[test]
fn new_tx_rejects_an_amount_that_is_no_decimal() {
    let from = Wallet::new();
    let error = Tx::new(&from, String::from("bob"), String::from("ten"), 1).unwrap_err();
    assert_eq!(error.kind, pos_chain::error::ErrorKind::InvalidInput);
    assert_eq!(error.message(), "Invalid amount");
}

#[test]
fn tx_hash_is_sha256_over_fields_in_order() {
    let tx = sample("", 1700000000);
    assert_eq!(
        tx.hash_str(),
        "e9dac120f1ff6c9cd81bfb44f92f06fcebe61e32b8d140f107c2d98897707bbd"
    );
    assert_eq!(hex::encode(tx.hash()), tx.hash_str());
}

#[test]
fn tx_hash_ignores_hash_signature_and_block() {
    let mut tx = sample("", 1700000000);
    let before = tx.hash();
    tx.hash = String::from("anything");
    tx.signature = String::from("anything");
    tx.block = Some(9);
    assert_eq!(tx.hash(), before);
    tx.nonce = 8;
    assert_ne!(tx.hash(), before);
}

#[test]
fn tx_with_a_foreign_signature_is_invalid() {
    let from = Wallet::new();
    let other = Wallet::new();
    let mut tx = Tx::new(&from, String::from("bob"), String::from("1"), 1).unwrap();
    assert!(tx.signed());
    tx.signature = other.sign(&tx.hash()).unwrap();
    assert!(!tx.signed());
    assert!(!tx.valid());
}

#[test]
fn tx_with_a_changed_field_is_invalid() {
    let from = Wallet::new();
    let mut tx = Tx::new(&from, String::from("bob"), String::from("1"), 1).unwrap();
    tx.amount = String::from("1000");
    assert!(!tx.valid());
}

#[test]
fn tx_with_a_wrong_hash_field_is_invalid() {
    let from = Wallet::new();
    let mut tx = Tx::new(&from, String::from("bob"), String::from("1"), 1).unwrap();
    tx.hash = String::from("GENESIS_133ec3db684243afafa83055a5f69a65");
    assert!(tx.signed());
    assert!(!tx.valid());
}

#[test]
fn tx_with_malformed_sender_or_signature_is_invalid() {
    let from = Wallet::new();
    let tx = Tx::new(&from, String::from("bob"), String::from("1"), 1).unwrap();
    let mut genesis = tx.clone();
    genesis.from = String::from("GENESIS");
    assert!(!genesis.signed());
    let mut short = tx.clone();
    short.from = String::from("02ab");
    assert!(!short.signed());
    let mut unsigned = tx.clone();
    unsigned.signature = String::from("GENESIS");
    assert!(!unsigned.signed());
    let mut odd = tx.clone();
    odd.signature.pop();
    assert!(!odd.signed());
    let mut upper = tx.clone();
    upper.signature = tx.signature.to_uppercase();
    assert!(upper.signed());
}

#[test]
fn tx_order_is_by_timestamp_then_hash() {
    let early = sample("ff", 10);
    let late_a = sample("aa", 20);
    let late_b = sample("ab", 20);
    assert!(early.precedes(&late_a));
    assert!(!late_a.precedes(&early));
    assert!(late_a.precedes(&late_b));
    assert!(!late_b.precedes(&late_a));
    assert!(!late_a.precedes(&late_a));
    assert!(sample("a", 20).precedes(&late_a));
    assert_eq!(early.partial_cmp(&late_a), Some(Ordering::Less));
    assert_eq!(late_b.partial_cmp(&late_a), Some(Ordering::Greater));
    assert_eq!(late_a.partial_cmp(&sample("aa", 20)), Some(Ordering::Equal));
    assert!(early < late_a);
}

#[test]
fn tx_order_is_total_on_samples() {
    let txs = vec![sample("b", 2), sample("a", 2), sample("", 2), sample("zz", 1), sample("a", 3)];
    for a in txs.iter() {
        for b in txs.iter() {
            let same = a.timestamp == b.timestamp && a.hash == b.hash;
            let count = [a.precedes(b), b.precedes(a), same].iter().filter(|x| **x).count();
            assert_eq!(count, 1);
            for c in txs.iter() {
                if a.precedes(b) && b.precedes(c) {
                    assert!(a.precedes(c));
                }
            }
        }
    }
}

#[test]
fn tx_equality_takes_every_field() {
    let a = sample("aa", 20);
    let mut b = a.clone();
    assert_eq!(a, b);
    b.block = Some(1);
    assert_ne!(a, b);
    assert_eq!(a.partial_cmp(&b), Some(Ordering::Equal));
}

#[test]
fn tx_with_a_signature_half_not_below_the_curve_order_is_invalid() {
    let from = Wallet::new();
    let mut tx = Tx::new(&from, String::from("bob"), String::from("1"), 1).unwrap();
    let order = "fffffffffffffffffffffffffffffffebaaedce6af48a03bbfd25e8cd0364141";
    tx.signature = format!("{}{}", order, &tx.signature[64..]);
    assert!(!tx.signed());
}

#[test]
fn new_tx_is_stamped_with_the_current_time() {
    let from = Wallet::new();
    let now = std::time::SystemTime::now()
        .duration_since(std::time::UNIX_EPOCH)
        .unwrap()
        .as_secs();
    let tx = Tx::new(&from, String::from("bob"), String::from("1"), 1).unwrap();
    assert!(tx.timestamp >= now);
    assert!(tx.timestamp <= now + 5);
    assert_eq!(tx.hash, tx.hash_str());
}

#[test]
fn amount_is_plain_digits_with_at_most_one_point() {
    let from = Wallet::new();
    for amount in ["0", "007", "1.50", "0.0001", "123456789012345678901234567890.5"] {
        let tx = Tx::new(&from, String::from("bob"), String::from(amount), 1).unwrap();
        assert_eq!(tx.amount(), amount);
        assert!(tx.valid());
    }
    for amount in [
        "", "-5", "+5", "1e3", "1E-2", ".5", "5.", ".", "1.2.3", "1_000", " 1", "1 ", "१",
        "1e-9223372036854775807", "1e9223372036854775808",
    ] {
        let error = Tx::new(&from, String::from("bob"), String::from(amount), 1).unwrap_err();
        assert_eq!(error.kind, pos_chain::error::ErrorKind::InvalidInput);
        let mut tx = Tx::new(&from, String::from("bob"), String::from("1"), 1).unwrap();
        tx.amount = String::from(amount);
        tx.hash = tx.hash_str();
        tx.signature = from.sign(&tx.hash()).unwrap();
        assert!(tx.signed());
        assert!(!tx.valid());
    }
}

#[test]
fn amount_text_is_checked_character_by_character() {
    assert!(is_amount_text("0"));
    assert!(is_amount_text("12.034"));
    assert!(!is_amount_text(""));
    assert!(!is_amount_text("-1"));
    assert!(!is_amount_text("1e5"));
    assert!(!is_amount_text("1..5"));
    assert!(!is_amount_text("1.5."));
    assert!(!is_amount_text("1,5"));
    assert!(!is_amount_text("１"));
}
