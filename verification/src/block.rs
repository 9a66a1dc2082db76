//! Blocks: what they hash to and how the genesis block and later blocks are
//! put together.

use crate::codec::be64;
use crate::codec::hex_encode;
use crate::codec::hex_text;
use crate::codec::push_be64;
use crate::codec::push_bytes;
use crate::codec::utf8;
use crate::crypto::merkle_root;
use crate::crypto::merkle_tree_root;
use crate::crypto::sha256;
use crate::crypto::sha256_digest;
use crate::crypto::signature_of;
use crate::crypto::unix_time;
use crate::error::Error;
use crate::system::GENESIS;
use crate::tx::Tx;
use crate::tx::TxView;
use crate::wallet::Wallet;
use vstd::prelude::*;

verus! {

/// A block of the chain. `txs` is absent in the form in which blocks are
/// stored.
#[derive(Debug, PartialEq, Eq)]
pub struct Block {
    pub idx: u64,
    pub timestamp: u64,
    pub validator: String,
    pub parent_hash: String,
    pub merkle_root: String,
    pub txs: Option<Vec<Tx>>,
    pub signature: String,
}

/// A block as plain values.
pub struct BlockView {
    pub idx: u64,
    pub timestamp: u64,
    pub validator: Seq<char>,
    pub parent_hash: Seq<char>,
    pub merkle_root: Seq<char>,
    pub txs: Option<Seq<TxView>>,
    pub signature: Seq<char>,
}

/// A list of transactions as plain values.
pub open spec fn txs_view(txs: Seq<Tx>) -> Seq<TxView> {
    Seq::new(txs.len(), |i: int| txs[i]@)
}

impl View for Block {
    type V = BlockView;

    open spec fn view(&self) -> BlockView {
        BlockView {
            idx: self.idx,
            timestamp: self.timestamp,
            validator: self.validator@,
            parent_hash: self.parent_hash@,
            merkle_root: self.merkle_root@,
            txs: match self.txs {
                Some(txs) => Some(txs_view(txs@)),
                None => None,
            },
            signature: self.signature@,
        }
    }
}

/// A string of zero bytes.
pub open spec fn zeros(length: nat) -> Seq<u8> {
    Seq::new(length, |i: int| 0u8)
}

/// The digests of a list of transactions, in order.
pub open spec fn tx_digests(txs: Seq<TxView>) -> Seq<Seq<u8>> {
    Seq::new(txs.len(), |i: int| txs[i].digest())
}

/// The Merkle root over the digests of a list of transactions, as
/// hexadecimal text. For the empty list it is 32 zero bytes.
pub open spec fn merkle_root_text(txs: Seq<TxView>) -> Seq<char> {
    if txs.len() == 0 {
        hex_text(zeros(32))
    } else {
        match merkle_tree_root(tx_digests(txs)) {
            Some(root) => hex_text(root),
            None => hex_text(zeros(32)),
        }
    }
}

/// The bytes a block's hash is taken over: index and timestamp as big-endian
/// 64-bit numbers, then validator, parent hash and Merkle root as the text
/// they are written in.
pub open spec fn block_preimage(
    idx: u64,
    timestamp: u64,
    validator: Seq<char>,
    parent_hash: Seq<char>,
    merkle_root: Seq<char>,
) -> Seq<u8> {
    be64(idx) + be64(timestamp) + utf8(validator) + utf8(parent_hash) + utf8(merkle_root)
}

impl BlockView {
    /// The SHA-256 digest of the block's header.
    pub open spec fn digest(self) -> Seq<u8> {
        sha256_digest(
            block_preimage(
                self.idx,
                self.timestamp,
                self.validator,
                self.parent_hash,
                self.merkle_root,
            ),
        )@
    }

    /// The digest as hexadecimal text.
    pub open spec fn hash_text(self) -> Seq<char> {
        hex_text(self.digest())
    }

    /// The block without its transactions: the form in which it is stored.
    pub open spec fn stripped(self) -> BlockView {
        BlockView { txs: None, ..self }
    }
}

/// What `Block::new_at` builds: a block over the given transactions, with
/// their Merkle root, proposed and signed by the wallet.
pub open spec fn signed_block(
    wallet: Wallet,
    idx: u64,
    parent_hash: Seq<char>,
    txs: Seq<TxView>,
    timestamp: u64,
) -> BlockView {
    let unsigned = BlockView {
        idx,
        timestamp,
        validator: wallet.address_text(),
        parent_hash,
        merkle_root: merkle_root_text(txs),
        txs: Some(txs),
        signature: Seq::empty(),
    };
    BlockView {
        signature: hex_text(signature_of(unsigned.digest(), wallet.secret_bytes())@),
        ..unsigned
    }
}

/// What `Block::genesis` builds: block zero over the given transactions,
/// stamped like the first of them, with no validator and no parent.
pub open spec fn genesis_block(txs: Seq<TxView>) -> BlockView {
    BlockView {
        idx: 0,
        timestamp: txs[0].timestamp,
        validator: hex_text(zeros(33)),
        parent_hash: hex_text(zeros(32)),
        merkle_root: merkle_root_text(txs),
        txs: Some(txs),
        signature: GENESIS@,
    }
}

/// The Merkle root of an empty list of transactions is 32 zero bytes, written
/// as 64 zero digits.
pub proof fn empty_merkle_root_is_zero()
    ensures
        merkle_root_text(Seq::empty()) == hex_text(zeros(32)),
        merkle_root_text(Seq::empty()) == Seq::new(64, |i: int| '0'),
{
    assert(hex_text(zeros(32)) =~= Seq::new(64, |i: int| '0'));
}

/// A copy of a list of transactions.
pub fn clone_txs(txs: &Vec<Tx>) -> (copy: Vec<Tx>)
    ensures
        copy@ == txs@,
{
    let mut copy: Vec<Tx> = Vec::new();
    let mut i: usize = 0;
    while i < txs.len()
        invariant
            i <= txs.len(),
            copy@ == txs@.subrange(0, i as int),
        decreases txs.len() - i,
    {
        copy.push(txs[i].clone());
        i = i + 1;
        assert(copy@ =~= txs@.subrange(0, i as int));
    }
    assert(txs@.subrange(0, i as int) =~= txs@);
    copy
}

/// The Merkle root over the digests of a list of transactions, as 64
/// hexadecimal digits; for the empty list, 64 zeros.
pub fn merkle_root_of(txs: &Vec<Tx>) -> (text: String)
    ensures
        text@ == merkle_root_text(txs_view(txs@)),
{
    let mut leaves: Vec<[u8; 32]> = Vec::new();
    let mut i: usize = 0;
    while i < txs.len()
        invariant
            i <= txs.len(),
            leaves.len() == i,
            forall|j: int| 0 <= j < i ==> leaves@[j]@ == txs@[j]@.digest(),
        decreases txs.len() - i,
    {
        leaves.push(txs[i].hash());
        i = i + 1;
    }
    assert(crate::crypto::leaves_view(leaves@) =~= tx_digests(txs_view(txs@)));
    match merkle_root(&leaves) {
        Some(root) => hex_encode(&root),
        None => {
            let root = [0u8; 32];
            assert(root@ =~= zeros(32));
            hex_encode(&root)
        },
    }
}

impl Clone for Block {
    fn clone(&self) -> (block: Block)
        ensures
            block@ == self@,
            block.txs.is_some() ==> block.txs.unwrap()@ == self.txs.unwrap()@,
    {
        Block {
            idx: self.idx,
            timestamp: self.timestamp,
            validator: self.validator.clone(),
            parent_hash: self.parent_hash.clone(),
            merkle_root: self.merkle_root.clone(),
            txs: match &self.txs {
                Some(txs) => Some(clone_txs(txs)),
                None => None,
            },
            signature: self.signature.clone(),
        }
    }
}

impl Block {
    /// A block over the given transactions, stamped with the current time,
    /// proposed and signed by the wallet. It always succeeds.
    pub fn new(wallet: &Wallet, idx: u64, parent_hash: String, txs: Vec<Tx>) -> (result: Result<
        Block,
        Error,
    >)
        ensures
            result.is_ok(),
            result.unwrap()@ == signed_block(
                *wallet,
                idx,
                parent_hash@,
                txs_view(txs@),
                result.unwrap().timestamp,
            ),
    {
        let timestamp = unix_time();
        Block::new_at(wallet, idx, parent_hash, txs, timestamp)
    }

    /// A block over the given transactions with a given timestamp, proposed
    /// and signed by the wallet. It always succeeds.
    pub fn new_at(
        wallet: &Wallet,
        idx: u64,
        parent_hash: String,
        txs: Vec<Tx>,
        timestamp: u64,
    ) -> (result: Result<Block, Error>)
        ensures
            result.is_ok(),
            result.unwrap()@ == signed_block(*wallet, idx, parent_hash@, txs_view(txs@), timestamp),
    {
        let merkle_root = merkle_root_of(&txs);
        let mut block = Block {
            idx,
            timestamp,
            validator: wallet.address(),
            parent_hash,
            merkle_root,
            txs: Some(txs),
            signature: String::new(),
        };
        let digest = block.hash();
        let signature = match wallet.sign(&digest) {
            Ok(signature) => signature,
            Err(e) => { return Err(e); },
        };
        block.signature = signature;
        Ok(block)
    }

    /// Block zero over the transactions of the genesis manifest, of which
    /// there is at least one.
    pub fn genesis(txs: Vec<Tx>) -> (block: Block)
        requires
            txs.len() > 0,
        ensures
            block@ == genesis_block(txs_view(txs@)),
    {
        let merkle_root = merkle_root_of(&txs);
        let validator = [0u8; 33];
        let parent_hash = [0u8; 32];
        assert(validator@ =~= zeros(33));
        assert(parent_hash@ =~= zeros(32));
        let timestamp = txs[0].timestamp;
        Block {
            idx: 0,
            timestamp,
            validator: hex_encode(&validator),
            parent_hash: hex_encode(&parent_hash),
            merkle_root,
            txs: Some(txs),
            signature: GENESIS.to_owned(),
        }
    }

    /// The transactions, where the block carries them.
    pub fn txs(&self) -> (txs: Option<Vec<Tx>>)
        ensures
            txs.is_some() == self.txs.is_some(),
            txs.is_some() ==> txs.unwrap()@ == self.txs.unwrap()@,
    {
        match &self.txs {
            Some(txs) => Some(clone_txs(txs)),
            None => None,
        }
    }

    /// The SHA-256 digest of the header. Transactions and signature have no
    /// part in it but through the Merkle root.
    pub fn hash(&self) -> (digest: [u8; 32])
        ensures
            digest@ == self@.digest(),
    {
        let mut preimage: Vec<u8> = Vec::new();
        push_be64(&mut preimage, self.idx);
        push_be64(&mut preimage, self.timestamp);
        push_bytes(&mut preimage, self.validator.as_str().as_bytes());
        push_bytes(&mut preimage, self.parent_hash.as_str().as_bytes());
        push_bytes(&mut preimage, self.merkle_root.as_str().as_bytes());
        assert(preimage@ =~= block_preimage(
            self@.idx,
            self@.timestamp,
            self@.validator,
            self@.parent_hash,
            self@.merkle_root,
        ));
        sha256(preimage.as_slice())
    }

    /// The digest as 64 hexadecimal digits.
    pub fn hash_str(&self) -> (text: String)
        ensures
            text@ == self@.hash_text(),
    {
        let digest = self.hash();
        hex_encode(&digest)
    }
}

} // verus!
