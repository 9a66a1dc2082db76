//! Transactions: what they hash to, when they are valid, and how they are
//! ordered.

use crate::codec::be64;
use crate::codec::bytes_less;
use crate::codec::hex_bytes;
use crate::codec::hex_decode;
use crate::codec::hex_encode;
use crate::codec::hex_text;
use crate::codec::hex_text_decodes;
use crate::codec::is_hex;
use crate::codec::lex_less;
use crate::codec::lex_less_irreflexive;
use crate::codec::lex_less_total;
use crate::codec::lex_less_transitive;
use crate::codec::push_be64;
use crate::codec::push_bytes;
use crate::codec::utf8;
use crate::crypto::public_key_is_valid;
use crate::crypto::public_key_of;
use crate::crypto::public_key_parses;
use crate::crypto::sha256;
use crate::crypto::sha256_digest;
use crate::crypto::signature_is_valid;
use crate::crypto::signature_of;
use crate::crypto::signature_parses;
use crate::crypto::signature_verifies;
use crate::crypto::to_array;
use crate::crypto::unix_time;
use crate::crypto::verify_signature;
use crate::error::Error;
use crate::error::ErrorKind;
use crate::numeric::is_amount;
use crate::numeric::is_amount_text;
use crate::wallet::Wallet;
use std::cmp::Ordering;
use vstd::prelude::*;

verus! {

/// A transfer of an amount from one address to another, or to one of the
/// staking sentinels.
#[derive(Debug, PartialEq, Eq)]
pub struct Tx {
    pub hash: String,
    pub from: String,
    pub to: String,
    pub amount: String,
    pub nonce: u64,
    pub timestamp: u64,
    pub signature: String,
    pub block: Option<u64>,
}

/// A transaction as plain values.
pub struct TxView {
    pub hash: Seq<char>,
    pub from: Seq<char>,
    pub to: Seq<char>,
    pub amount: Seq<char>,
    pub nonce: u64,
    pub timestamp: u64,
    pub signature: Seq<char>,
    pub block: Option<u64>,
}

impl View for Tx {
    type V = TxView;

    open spec fn view(&self) -> TxView {
        TxView {
            hash: self.hash@,
            from: self.from@,
            to: self.to@,
            amount: self.amount@,
            nonce: self.nonce,
            timestamp: self.timestamp,
            signature: self.signature@,
            block: self.block,
        }
    }
}

/// The bytes a transaction's hash is taken over: sender, recipient and amount
/// as text, then nonce and timestamp as big-endian 64-bit numbers.
pub open spec fn tx_preimage(
    from: Seq<char>,
    to: Seq<char>,
    amount: Seq<char>,
    nonce: u64,
    timestamp: u64,
) -> Seq<u8> {
    utf8(from) + utf8(to) + utf8(amount) + be64(nonce) + be64(timestamp)
}

/// The bytes that a hexadecimal text of exactly `length` bytes stands for.
pub open spec fn hex_field(text: Seq<char>, length: nat) -> Option<Seq<u8>> {
    if is_hex(utf8(text)) && hex_bytes(utf8(text)).len() == length {
        Some(hex_bytes(utf8(text)))
    } else {
        None
    }
}

impl TxView {
    /// The SHA-256 digest of the transaction's content.
    pub open spec fn digest(self) -> Seq<u8> {
        sha256_digest(tx_preimage(self.from, self.to, self.amount, self.nonce, self.timestamp))@
    }

    /// The digest as hexadecimal text: the hash under which the transaction
    /// is stored.
    pub open spec fn hash_text(self) -> Seq<char> {
        hex_text(self.digest())
    }

    /// Whether the signature field holds a signature of the digest that
    /// verifies under the sender's key.
    pub open spec fn is_signed(self) -> bool {
        match (hex_field(self.from, 33), hex_field(self.signature, 64)) {
            (Some(key), Some(signature)) => {
                &&& public_key_parses(key)
                &&& signature_parses(signature)
                &&& signature_verifies(self.digest(), signature, key)
            },
            _ => false,
        }
    }

    /// Validity: the amount is an amount, so not below zero; the hash field
    /// is the hash of the content; and the signature verifies under the
    /// sender's key.
    pub open spec fn is_valid(self) -> bool {
        &&& is_amount(self.amount)
        &&& self.hash == self.hash_text()
        &&& self.is_signed()
    }

    /// The order of transactions: by timestamp, then by hash in dictionary
    /// order.
    pub open spec fn before(self, other: TxView) -> bool {
        self.timestamp < other.timestamp || (self.timestamp == other.timestamp && lex_less(
            utf8(self.hash),
            utf8(other.hash),
        ))
    }

    /// Whether two transactions hold the same place in the order.
    pub open spec fn same_place(self, other: TxView) -> bool {
        self.timestamp == other.timestamp && self.hash == other.hash
    }
}

/// What `Tx::new_at` builds: a pending transaction from the wallet's address,
/// hashed and signed by the wallet.
pub open spec fn signed_tx(
    wallet: Wallet,
    to: Seq<char>,
    amount: Seq<char>,
    nonce: u64,
    timestamp: u64,
) -> TxView {
    let digest = sha256_digest(
        tx_preimage(wallet.address_text(), to, amount, nonce, timestamp),
    )@;
    TxView {
        hash: hex_text(digest),
        from: wallet.address_text(),
        to,
        amount,
        nonce,
        timestamp,
        signature: hex_text(signature_of(digest, wallet.secret_bytes())@),
        block: None,
    }
}

/// Whether the signature that a wallet makes of a transaction's digest
/// verifies under the wallet's own key.
pub open spec fn own_signature_verifies(wallet: Wallet, tx: TxView) -> bool {
    signature_verifies(
        tx.digest(),
        signature_of(tx.digest(), wallet.secret_bytes())@,
        public_key_of(wallet.secret_bytes())@,
    )
}

/// The order of transactions is irreflexive and transitive.
pub proof fn tx_order_is_strict(a: TxView, b: TxView, c: TxView)
    ensures
        !a.before(a),
        a.before(b) && b.before(c) ==> a.before(c),
{
    lex_less_irreflexive(utf8(a.hash), 0);
    if a.before(b) && b.before(c) && a.timestamp == b.timestamp && b.timestamp == c.timestamp {
        lex_less_transitive(utf8(a.hash), utf8(b.hash), utf8(c.hash), 0);
    }
}

/// The order of transactions is total on `(timestamp, hash)`: of any two
/// transactions exactly one comes before the other, unless they agree in
/// both, and then neither does.
pub proof fn tx_order_is_total(a: TxView, b: TxView)
    ensures
        a.before(b) || b.before(a) || a.same_place(b),
        !(a.before(b) && b.before(a)),
        a.same_place(b) ==> !a.before(b) && !b.before(a),
{
    lex_less_total(utf8(a.hash), utf8(b.hash), 0);
    lex_less_total(utf8(b.hash), utf8(a.hash), 0);
    if utf8(a.hash) == utf8(b.hash) {
        vstd::utf8::encode_utf8_decode_utf8(a.hash);
        vstd::utf8::encode_utf8_decode_utf8(b.hash);
    }
}

/// Transactions compare by timestamp, then hash; two with the same timestamp
/// and hash compare equal whatever else they hold.
impl PartialOrd for Tx {
    fn partial_cmp(&self, other: &Tx) -> (order: Option<Ordering>) {
        if self.precedes(other) {
            Some(Ordering::Less)
        } else if other.precedes(self) {
            Some(Ordering::Greater)
        } else {
            Some(Ordering::Equal)
        }
    }
}

impl vstd::std_specs::cmp::PartialOrdSpecImpl for Tx {
    open spec fn obeys_partial_cmp_spec() -> bool {
        true
    }

    open spec fn partial_cmp_spec(&self, other: &Tx) -> Option<Ordering> {
        if self@.before(other@) {
            Some(Ordering::Less)
        } else if other@.before(self@) {
            Some(Ordering::Greater)
        } else {
            Some(Ordering::Equal)
        }
    }
}

impl Clone for Tx {
    fn clone(&self) -> (tx: Tx)
        ensures
            tx == *self,
    {
        Tx {
            hash: self.hash.clone(),
            from: self.from.clone(),
            to: self.to.clone(),
            amount: self.amount.clone(),
            nonce: self.nonce,
            timestamp: self.timestamp,
            signature: self.signature.clone(),
            block: self.block,
        }
    }
}

impl Tx {
    /// A pending transaction from `wallet`, stamped with the current time,
    /// hashed and signed. It fails, with `InvalidInput`, exactly where the
    /// amount is not a plain numeral.
    pub fn new(wallet: &Wallet, to: String, amount: String, nonce: u64) -> (result: Result<
        Tx,
        Error,
    >)
        ensures
            match result {
                Ok(tx) => is_amount(amount@) && tx@ == signed_tx(
                    *wallet,
                    to@,
                    amount@,
                    nonce,
                    tx.timestamp,
                ),
                Err(e) => !is_amount(amount@) && e.is(ErrorKind::InvalidInput, "Invalid amount"@),
            },
            result.is_ok() ==> result.unwrap()@.is_valid() == own_signature_verifies(
                *wallet,
                result.unwrap()@,
            ),
    {
        let timestamp = unix_time();
        Tx::new_at(wallet, to, amount, nonce, timestamp)
    }

    /// A pending transaction from `wallet` with a given timestamp, hashed and
    /// signed. It fails, with `InvalidInput`, exactly where the amount is
    /// not a plain numeral. The transaction is valid exactly where the
    /// wallet's signature verifies under the wallet's key.
    pub fn new_at(wallet: &Wallet, to: String, amount: String, nonce: u64, timestamp: u64) -> (result:
        Result<Tx, Error>)
        ensures
            match result {
                Ok(tx) => is_amount(amount@) && tx@ == signed_tx(
                    *wallet,
                    to@,
                    amount@,
                    nonce,
                    timestamp,
                ),
                Err(e) => !is_amount(amount@) && e.is(ErrorKind::InvalidInput, "Invalid amount"@),
            },
            result.is_ok() ==> result.unwrap()@.is_valid() == own_signature_verifies(
                *wallet,
                result.unwrap()@,
            ),
    {
        if !is_amount_text(amount.as_str()) {
            return Err(Error::new(ErrorKind::InvalidInput, "Invalid amount"));
        }
        let mut tx = Tx {
            hash: String::new(),
            from: wallet.address(),
            to,
            amount,
            nonce,
            timestamp,
            signature: String::new(),
            block: None,
        };
        let digest = tx.hash();
        let signature = match wallet.sign(&digest) {
            Ok(signature) => signature,
            Err(e) => { return Err(e); },
        };
        tx.signature = signature;
        tx.hash = hex_encode(&digest);
        proof {
            hex_text_decodes(public_key_of(wallet.secret_bytes())@);
            hex_text_decodes(signature_of(digest@, wallet.secret_bytes())@);
        }
        Ok(tx)
    }

    /// The sender.
    pub fn from(&self) -> (from: String)
        ensures
            from@ == self@.from,
    {
        self.from.clone()
    }

    /// The nonce.
    pub fn nonce(&self) -> (nonce: u64)
        ensures
            nonce == self@.nonce,
    {
        self.nonce
    }

    /// The recipient.
    pub fn to(&self) -> (to: String)
        ensures
            to@ == self@.to,
    {
        self.to.clone()
    }

    /// The amount, as its decimal text.
    pub fn amount(&self) -> (amount: String)
        ensures
            amount@ == self@.amount,
    {
        self.amount.clone()
    }

    /// The SHA-256 digest of the content. The hash and signature fields have
    /// no part in it.
    pub fn hash(&self) -> (digest: [u8; 32])
        ensures
            digest@ == self@.digest(),
    {
        let mut preimage: Vec<u8> = Vec::new();
        push_bytes(&mut preimage, self.from.as_str().as_bytes());
        push_bytes(&mut preimage, self.to.as_str().as_bytes());
        push_bytes(&mut preimage, self.amount.as_str().as_bytes());
        push_be64(&mut preimage, self.nonce);
        push_be64(&mut preimage, self.timestamp);
        assert(preimage@ =~= tx_preimage(
            self@.from,
            self@.to,
            self@.amount,
            self@.nonce,
            self@.timestamp,
        ));
        sha256(preimage.as_slice())
    }

    /// The digest as 64 hexadecimal digits.
    pub fn hash_str(&self) -> (text: String)
        ensures
            text@ == self@.hash_text(),
    {
        let digest = self.hash();
        hex_encode(&digest)
    }

    /// Whether the signature field holds a signature of the digest that
    /// verifies under the sender's key.
    pub fn signed(&self) -> (signed: bool)
        ensures
            signed == self@.is_signed(),
    {
        let key_bytes = match hex_decode(self.from.as_str().as_bytes()) {
            Some(bytes) => bytes,
            None => { return false; },
        };
        if key_bytes.len() != 33 {
            return false;
        }
        let key: [u8; 33] = to_array(key_bytes.as_slice());
        if !public_key_is_valid(&key) {
            return false;
        }
        let signature_bytes = match hex_decode(self.signature.as_str().as_bytes()) {
            Some(bytes) => bytes,
            None => { return false; },
        };
        if signature_bytes.len() != 64 {
            return false;
        }
        let signature: [u8; 64] = to_array(signature_bytes.as_slice());
        if !signature_is_valid(&signature) {
            return false;
        }
        let digest = self.hash();
        verify_signature(&digest, &signature, &key)
    }

    /// Whether the transaction is valid: a plain amount, a hash field that
    /// is the hash of the content, and a signature that verifies.
    pub fn valid(&self) -> (valid: bool)
        ensures
            valid == self@.is_valid(),
    {
        if !is_amount_text(self.amount.as_str()) {
            return false;
        }
        let hash = self.hash_str();
        if hash != self.hash {
            return false;
        }
        self.signed()
    }

    /// Whether this transaction comes strictly before another in the order
    /// by timestamp, then hash.
    pub fn precedes(&self, other: &Tx) -> (before: bool)
        ensures
            before == self@.before(other@),
    {
        if self.timestamp != other.timestamp {
            return self.timestamp < other.timestamp;
        }
        bytes_less(self.hash.as_str().as_bytes(), other.hash.as_str().as_bytes())
    }
}

} // verus!
