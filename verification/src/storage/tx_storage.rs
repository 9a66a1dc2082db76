//! Transactions by hash, and the sets of hashes kept for each wallet, for
//! each block, and for the transactions still pending.

use crate::block::txs_view;
use crate::codec::clone_texts;
use crate::codec::decimal_text;
use crate::codec::decimal_text_is_numeral;
use crate::codec::decimal_text_is_short;
use crate::codec::hex_text_is_hex;
use crate::codec::is_decimal_digit;
use crate::codec::prefix_cancels;
use crate::codec::prefixed;
use crate::codec::texts_view;
use crate::codec::u64_to_string;
use crate::error::Error;
use crate::error::ErrorKind;
use crate::storage::kv::hashes_at;
use crate::storage::kv::tx_at;
use crate::storage::kv::wrong_record;
use crate::storage::kv::KvStore;
use crate::storage::kv::Lookup;
use crate::storage::kv::Record;
use crate::storage::kv::RecordView;
use crate::tx::Tx;
use crate::tx::tx_order_is_strict;
use crate::tx::tx_order_is_total;
use crate::tx::TxView;
use vstd::prelude::*;

verus! {

/// The name of the set of the pending transactions, where a block's index
/// would stand.
pub const NO_BLOCK_IDX: &'static str = "empty";

/// A store's content.
pub type Store = Map<Seq<char>, RecordView>;

/// A key of the transaction index.
pub open spec fn tx_key(name: Seq<char>) -> Seq<char> {
    "tx."@ + name
}

/// The name of the set a transaction belongs to by its block: the block's
/// index, or `empty` while it is pending.
pub open spec fn block_name(block: Option<u64>) -> Seq<char> {
    match block {
        Some(idx) => decimal_text(idx as nat),
        None => NO_BLOCK_IDX@,
    }
}

/// A set of hashes with one more member; a hash that is in it already is not
/// added again.
pub open spec fn with_hash(hashes: Seq<Seq<char>>, hash: Seq<char>) -> Seq<Seq<char>> {
    if hashes.contains(hash) {
        hashes
    } else {
        hashes.push(hash)
    }
}

/// A set of hashes without one of them.
pub open spec fn without_hash(hashes: Seq<Seq<char>>, hash: Seq<char>) -> Seq<Seq<char>>
    decreases hashes.len(),
{
    if hashes.len() == 0 {
        hashes
    } else if hashes.last() == hash {
        without_hash(hashes.drop_last(), hash)
    } else {
        without_hash(hashes.drop_last(), hash).push(hashes.last())
    }
}

/// The store after a hash was added to the set of a name; nothing where the
/// name's key holds something other than a set.
pub open spec fn index_insert(store: Store, name: Seq<char>, hash: Seq<char>) -> Option<Store> {
    match hashes_at(store, tx_key(name)) {
        Lookup::Found(hashes) => Some(
            store.insert(tx_key(name), RecordView::Hashes(with_hash(hashes, hash))),
        ),
        _ => None,
    }
}

/// The store after a transaction was written under its hash.
pub open spec fn with_record(store: Store, tx: TxView) -> Store {
    store.insert(tx_key(tx.hash_text()), RecordView::Tx(tx))
}

/// The store after `save`, and whether `save` succeeded. The transaction is
/// written under its hash, then its hash is added to the sets of its sender,
/// its recipient and its block; the first set that cannot be read stops the
/// work where it stands.
#[verifier::opaque]
pub open spec fn saved(store: Store, tx: TxView) -> (Store, bool) {
    let hash = tx.hash_text();
    let written = with_record(store, tx);
    match index_insert(written, tx.from, hash) {
        None => (written, false),
        Some(by_sender) => match index_insert(by_sender, tx.to, hash) {
            None => (by_sender, false),
            Some(by_recipient) => match index_insert(by_recipient, block_name(tx.block), hash) {
                None => (by_recipient, false),
                Some(by_block) => (by_block, true),
            },
        },
    }
}

/// The transactions a store holds for a list of hashes, in the list's order;
/// a hash without a transaction is passed over. Nothing where one of the
/// hashes' keys holds something other than a transaction.
pub open spec fn txs_of(store: Store, hashes: Seq<Seq<char>>) -> Option<Seq<TxView>>
    decreases hashes.len(),
{
    if hashes.len() == 0 {
        Some(Seq::empty())
    } else {
        match txs_of(store, hashes.drop_last()) {
            None => None,
            Some(front) => match tx_at(store, tx_key(hashes.last())) {
                Lookup::Found(tx) => Some(front.push(tx)),
                Lookup::Missing => Some(front),
                Lookup::Wrong => None,
            },
        }
    }
}

/// The transactions of the set kept under a name. Nothing where the set or
/// one of its transactions cannot be read.
pub open spec fn txs_under(store: Store, name: Seq<char>) -> Option<Seq<TxView>> {
    match hashes_at(store, tx_key(name)) {
        Lookup::Found(hashes) => txs_of(store, hashes),
        _ => None,
    }
}

/// The position at which a transaction belongs in an ordered list: that of
/// the first member, from `i` on, that does not come before it.
pub open spec fn place_of(sorted: Seq<TxView>, tx: TxView, i: int) -> int
    decreases sorted.len() - i,
{
    if i < 0 || i >= sorted.len() || !sorted[i].before(tx) {
        i
    } else {
        place_of(sorted, tx, i + 1)
    }
}

/// An ordered list with one more transaction in its place; a transaction
/// whose place is taken by a member with the same timestamp and hash is not
/// added.
pub open spec fn ordered_insert(sorted: Seq<TxView>, tx: TxView) -> Seq<TxView> {
    let place = place_of(sorted, tx, 0);
    if place < sorted.len() && !tx.before(sorted[place]) {
        sorted
    } else {
        sorted.insert(place, tx)
    }
}

/// A list of transactions put in order by timestamp, then hash; of several
/// with the same timestamp and hash the first stays.
pub open spec fn ordered(txs: Seq<TxView>) -> Seq<TxView>
    decreases txs.len(),
{
    if txs.len() == 0 {
        txs
    } else {
        ordered_insert(ordered(txs.drop_last()), txs.last())
    }
}

/// A transaction as it stands once it is in a block.
pub open spec fn in_block(tx: TxView, idx: u64) -> TxView {
    TxView { block: Some(idx), ..tx }
}

/// The store after each of the transactions was written again, under its
/// hash, as part of a block.
pub open spec fn with_moved_records(store: Store, txs: Seq<TxView>, idx: u64) -> Store
    decreases txs.len(),
{
    if txs.len() == 0 {
        store
    } else {
        with_record(with_moved_records(store, txs.drop_last(), idx), in_block(txs.last(), idx))
    }
}

/// A set of hashes without those of the given transactions.
pub open spec fn without_hashes(hashes: Seq<Seq<char>>, txs: Seq<TxView>) -> Seq<Seq<char>>
    decreases txs.len(),
{
    if txs.len() == 0 {
        hashes
    } else {
        without_hash(without_hashes(hashes, txs.drop_last()), txs.last().hash_text())
    }
}

/// A set of hashes with those of the given transactions added.
pub open spec fn with_hashes(hashes: Seq<Seq<char>>, txs: Seq<TxView>) -> Seq<Seq<char>>
    decreases txs.len(),
{
    if txs.len() == 0 {
        hashes
    } else {
        with_hash(with_hashes(hashes, txs.drop_last()), txs.last().hash_text())
    }
}

/// The store after `update_pending`, and whether it succeeded. Each
/// transaction is written again as part of the block; the pending set loses
/// their hashes; the block's set gains them and keeps what it held. Where
/// the pending set or the block's set cannot be read nothing is changed.
pub open spec fn moved(store: Store, txs: Seq<TxView>, idx: u64) -> (Store, bool) {
    match (
        hashes_at(store, tx_key(NO_BLOCK_IDX@)),
        hashes_at(store, tx_key(decimal_text(idx as nat))),
    ) {
        (Lookup::Found(pending), Lookup::Found(held)) => (
            with_moved_records(store, txs, idx).insert(
                tx_key(NO_BLOCK_IDX@),
                RecordView::Hashes(without_hashes(pending, txs)),
            ).insert(
                tx_key(decimal_text(idx as nat)),
                RecordView::Hashes(with_hashes(held, txs)),
            ),
            true,
        ),
        _ => (store, false),
    }
}

/// Whether a set of hashes has a given member.
fn has_hash(hashes: &Vec<String>, hash: &String) -> (found: bool)
    ensures
        found == texts_view(hashes@).contains(hash@),
{
    let mut i: usize = 0;
    while i < hashes.len()
        invariant
            i <= hashes.len(),
            forall|j: int| 0 <= j < i ==> texts_view(hashes@)[j] != hash@,
        decreases hashes.len() - i,
    {
        if hashes[i] == *hash {
            assert(texts_view(hashes@)[i as int] == hash@);
            return true;
        }
        i = i + 1;
    }
    false
}

/// Adds a hash to a set.
fn insert_hash(hashes: &mut Vec<String>, hash: String)
    ensures
        texts_view(final(hashes)@) == with_hash(texts_view(old(hashes)@), hash@),
{
    if !has_hash(hashes, &hash) {
        hashes.push(hash);
        assert(texts_view(hashes@) =~= texts_view(old(hashes)@).push(hash@));
    }
}

/// Takes a hash out of a set.
fn remove_hash(hashes: &Vec<String>, hash: &String) -> (rest: Vec<String>)
    ensures
        texts_view(rest@) == without_hash(texts_view(hashes@), hash@),
{
    let mut rest: Vec<String> = Vec::new();
    let mut i: usize = 0;
    assert(texts_view(hashes@.subrange(0, 0)) =~= Seq::<Seq<char>>::empty());
    while i < hashes.len()
        invariant
            i <= hashes.len(),
            texts_view(rest@) == without_hash(texts_view(hashes@.subrange(0, i as int)), hash@),
        decreases hashes.len() - i,
    {
        let ghost before = texts_view(hashes@.subrange(0, i as int));
        let ghost after = texts_view(hashes@.subrange(0, i + 1));
        assert(after.drop_last() =~= before);
        assert(after.last() == hashes[i as int]@);
        if hashes[i] != *hash {
            rest.push(hashes[i].clone());
            assert(texts_view(rest@) =~= without_hash(before, hash@).push(hashes[i as int]@));
        }
        i = i + 1;
    }
    assert(hashes@.subrange(0, i as int) =~= hashes@);
    rest
}

/// The transactions, kept in a key-value store.
pub struct TxStorage {
    db: KvStore,
}

impl View for TxStorage {
    type V = Map<Seq<char>, RecordView>;

    closed spec fn view(&self) -> Map<Seq<char>, RecordView> {
        self.db@
    }
}

impl TxStorage {
    /// The transactions held in a store.
    pub fn new(db: KvStore) -> (storage: TxStorage)
        ensures
            storage@ == db@,
    {
        TxStorage { db }
    }

    /// The store behind the transactions.
    pub fn db(&self) -> (db: &KvStore)
        ensures
            db@ == self@,
    {
        &self.db
    }

    /// Saves a transaction under its hash and adds the hash to the sets of
    /// its sender, its recipient and its block, or of the pending while it
    /// has no block. It fails, with `Storage`, exactly where the key of one
    /// of those sets holds something other than a set; what was written
    /// until then stays.
    pub fn save(&mut self, tx: &Tx) -> (result: Result<(), Error>)
        ensures
            sound(old(self)@) ==> sound(final(self)@),
            tidy(old(self)@) ==> tidy(final(self)@),
            final(self)@ == saved(old(self)@, tx@).0,
            result.is_ok() == saved(old(self)@, tx@).1,
            result.is_err() ==> result.unwrap_err().is(ErrorKind::Storage, "Unexpected record"@),
    {
        proof {
            if sound(self@) {
                save_keeps_sound(self@, tx@);
            }
            store_stays_tidy(self@, tx@, Seq::empty(), 0);
        }
        reveal(saved);
        self.save_without_idx(tx);
        match self.add_to_txs_index(tx.from(), tx.hash_str()) {
            Ok(_) => {},
            Err(e) => { return Err(e); },
        }
        match self.add_to_txs_index(tx.to(), tx.hash_str()) {
            Ok(_) => {},
            Err(e) => { return Err(e); },
        }
        self.add_to_block_idx(tx)
    }

    /// Adds a hash to the set kept under a name.
    fn add_to_txs_index(&mut self, wallet: String, tx_hash: String) -> (result: Result<(), Error>)
        ensures
            match index_insert(old(self)@, wallet@, tx_hash@) {
                Some(store) => result.is_ok() && final(self)@ == store,
                None => result.is_err() && final(self)@ == old(self)@ && result.unwrap_err().is(
                    ErrorKind::Storage,
                    "Unexpected record"@,
                ),
            },
    {
        let mut hashes = match self.find_hashes(wallet.as_str()) {
            Ok(hashes) => hashes,
            Err(e) => { return Err(e); },
        };
        insert_hash(&mut hashes, tx_hash);
        let key = self.build_key(wallet.as_str());
        self.db.put(key, Record::Hashes(hashes));
        Ok(())
    }

    /// Adds a transaction's hash to the set of its block, or of the pending.
    fn add_to_block_idx(&mut self, tx: &Tx) -> (result: Result<(), Error>)
        ensures
            match index_insert(old(self)@, block_name(tx@.block), tx@.hash_text()) {
                Some(store) => result.is_ok() && final(self)@ == store,
                None => result.is_err() && final(self)@ == old(self)@ && result.unwrap_err().is(
                    ErrorKind::Storage,
                    "Unexpected record"@,
                ),
            },
    {
        let idx = match tx.block {
            Some(idx) => u64_to_string(idx),
            None => NO_BLOCK_IDX.to_owned(),
        };
        self.add_to_txs_index(idx, tx.hash_str())
    }

    /// The set of hashes kept under a name.
    fn find_hashes(&self, name: &str) -> (result: Result<Vec<String>, Error>)
        ensures
            match hashes_at(self@, tx_key(name@)) {
                Lookup::Found(hashes) => result.is_ok() && texts_view(result.unwrap()@) == hashes,
                _ => result.is_err() && result.unwrap_err().is(
                    ErrorKind::Storage,
                    "Unexpected record"@,
                ),
            },
    {
        let key = self.build_key(name);
        match self.db.get(&key) {
            Some(Record::Hashes(hashes)) => Ok(clone_texts(hashes)),
            Some(_) => Err(wrong_record()),
            None => {
                let hashes: Vec<String> = Vec::new();
                assert(texts_view(hashes@) =~= Seq::<Seq<char>>::empty());
                Ok(hashes)
            },
        }
    }

    /// The transaction of a hash, if one was saved. It fails, with
    /// `Storage`, exactly where the hash's key holds something other than a
    /// transaction.
    pub fn find_by_hash(&self, hash: String) -> (result: Result<Option<Tx>, Error>)
        ensures
            match tx_at(self@, tx_key(hash@)) {
                Lookup::Found(tx) => result.is_ok() && result.unwrap().is_some()
                    && result.unwrap().unwrap()@ == tx,
                Lookup::Missing => result.is_ok() && result.unwrap().is_none(),
                Lookup::Wrong => result.is_err() && result.unwrap_err().is(
                    ErrorKind::Storage,
                    "Unexpected record"@,
                ),
            },
    {
        let key = self.build_key(hash.as_str());
        match self.db.get(&key) {
            Some(Record::Tx(tx)) => Ok(Some(tx.clone())),
            Some(_) => Err(wrong_record()),
            None => Ok(None),
        }
    }

    /// The transactions of the set kept under a name, in the set's order.
    fn find_under(&self, name: &str) -> (result: Result<Vec<Tx>, Error>)
        ensures
            match txs_under(self@, name@) {
                Some(txs) => result.is_ok() && txs_view(result.unwrap()@) == txs,
                None => result.is_err() && result.unwrap_err().is(
                    ErrorKind::Storage,
                    "Unexpected record"@,
                ),
            },
    {
        let hashes = match self.find_hashes(name) {
            Ok(hashes) => hashes,
            Err(e) => { return Err(e); },
        };
        let mut txs: Vec<Tx> = Vec::new();
        let mut i: usize = 0;
        assert(texts_view(hashes@).subrange(0, 0) =~= Seq::<Seq<char>>::empty());
        assert(txs_view(txs@) =~= Seq::<TxView>::empty());
        while i < hashes.len()
            invariant
                i <= hashes.len(),
                hashes_at(self@, tx_key(name@)) == Lookup::Found(texts_view(hashes@)),
                txs_of(self@, texts_view(hashes@).subrange(0, i as int)) == Some(txs_view(txs@)),
            decreases hashes.len() - i,
        {
            let ghost before = texts_view(hashes@).subrange(0, i as int);
            let ghost after = texts_view(hashes@).subrange(0, i + 1);
            assert(after.drop_last() =~= before);
            assert(after.last() == hashes[i as int]@);
            let ghost collected = txs_view(txs@);
            match self.find_by_hash(hashes[i].clone()) {
                Ok(Some(tx)) => {
                    txs.push(tx);
                    assert(txs_view(txs@) =~= collected.push(tx@));
                },
                Ok(None) => {},
                Err(e) => {
                    proof {
                        assert(tx_at(self@, tx_key(after.last())) == Lookup::<TxView>::Wrong);
                        assert(txs_of(self@, after).is_none());
                        txs_of_fails_on(self@, texts_view(hashes@), i + 1);
                    }
                    return Err(e);
                },
            }
            i = i + 1;
        }
        assert(texts_view(hashes@).subrange(0, i as int) =~= texts_view(hashes@));
        Ok(txs)
    }

    /// The transactions a wallet sent or received, in order of timestamp,
    /// then hash. It fails, with `Storage`, exactly where the wallet's set or
    /// one of its transactions cannot be read.
    pub fn find_wallet_txs(&self, wallet: String) -> (result: Result<Vec<Tx>, Error>)
        ensures
            match txs_under(self@, wallet@) {
                Some(txs) => result.is_ok() && txs_view(result.unwrap()@) == ordered(txs),
                None => result.is_err() && result.unwrap_err().is(
                    ErrorKind::Storage,
                    "Unexpected record"@,
                ),
            },
    {
        let found = match self.find_under(wallet.as_str()) {
            Ok(found) => found,
            Err(e) => { return Err(e); },
        };
        let mut sorted: Vec<Tx> = Vec::new();
        let mut i: usize = 0;
        assert(txs_view(found@).subrange(0, 0) =~= Seq::<TxView>::empty());
        assert(txs_view(sorted@) =~= Seq::<TxView>::empty());
        while i < found.len()
            invariant
                i <= found.len(),
                txs_view(sorted@) == ordered(txs_view(found@).subrange(0, i as int)),
            decreases found.len() - i,
        {
            let ghost before = txs_view(found@).subrange(0, i as int);
            let ghost after = txs_view(found@).subrange(0, i + 1);
            assert(after.drop_last() =~= before);
            assert(after.last() == found[i as int]@);
            insert_ordered(&mut sorted, found[i].clone());
            i = i + 1;
        }
        assert(txs_view(found@).subrange(0, i as int) =~= txs_view(found@));
        Ok(sorted)
    }

    /// The pending transactions, in the order of the pending set. It fails,
    /// with `Storage`, exactly where the set or one of its transactions
    /// cannot be read.
    pub fn find_pending(&self) -> (result: Result<Vec<Tx>, Error>)
        ensures
            match txs_under(self@, NO_BLOCK_IDX@) {
                Some(txs) => result.is_ok() && txs_view(result.unwrap()@) == txs,
                None => result.is_err() && result.unwrap_err().is(
                    ErrorKind::Storage,
                    "Unexpected record"@,
                ),
            },
    {
        self.find_under(NO_BLOCK_IDX)
    }

    /// The transactions of a block, in the order of the block's set. It
    /// fails, with `Storage`, exactly where the set or one of its
    /// transactions cannot be read.
    pub fn find_by_block_idx(&self, idx: u64) -> (result: Result<Vec<Tx>, Error>)
        ensures
            match txs_under(self@, decimal_text(idx as nat)) {
                Some(txs) => result.is_ok() && txs_view(result.unwrap()@) == txs,
                None => result.is_err() && result.unwrap_err().is(
                    ErrorKind::Storage,
                    "Unexpected record"@,
                ),
            },
    {
        let name = u64_to_string(idx);
        self.find_under(name.as_str())
    }

    /// Moves transactions from the pending set into a block: each is written
    /// again with the block's index, the pending set loses their hashes, and
    /// the block's set gains them and keeps what it held. It fails, with
    /// `Storage`, exactly where the pending set or the block's set cannot be
    /// read, and then changes nothing.
    pub fn update_pending(&mut self, txs: &Vec<Tx>, idx: u64) -> (result: Result<(), Error>)
        ensures
            result.is_ok() ==> forall|i: int|
                0 <= i < txs.len() ==> !lists(
                    final(self)@,
                    NO_BLOCK_IDX@,
                    (#[trigger] txs[i])@.hash_text(),
                ) && lists(final(self)@, decimal_text(idx as nat), txs[i]@.hash_text()),
            result.is_ok() ==> forall|hash: Seq<char>|
                #[trigger] lists(old(self)@, decimal_text(idx as nat), hash) ==> lists(
                    final(self)@,
                    decimal_text(idx as nat),
                    hash,
                ),
            sound(old(self)@) ==> sound(final(self)@),
            tidy(old(self)@) ==> tidy(final(self)@),
            final(self)@ == moved(old(self)@, txs_view(txs@), idx).0,
            result.is_ok() == moved(old(self)@, txs_view(txs@), idx).1,
            result.is_err() ==> result.unwrap_err().is(ErrorKind::Storage, "Unexpected record"@),
    {
        let mut hashes = match self.find_hashes(NO_BLOCK_IDX) {
            Ok(hashes) => hashes,
            Err(e) => { return Err(e); },
        };
        let name = u64_to_string(idx);
        let mut new_idx = match self.find_hashes(name.as_str()) {
            Ok(hashes) => hashes,
            Err(e) => { return Err(e); },
        };
        let ghost pending = texts_view(hashes@);
        let ghost held = texts_view(new_idx@);
        let mut i: usize = 0;
        assert(txs_view(txs@).subrange(0, 0) =~= Seq::<TxView>::empty());
        while i < txs.len()
            invariant
                i <= txs.len(),
                self@ == with_moved_records(old(self)@, txs_view(txs@).subrange(0, i as int), idx),
                texts_view(hashes@) == without_hashes(
                    pending,
                    txs_view(txs@).subrange(0, i as int),
                ),
                texts_view(new_idx@) == with_hashes(held, txs_view(txs@).subrange(0, i as int)),
            decreases txs.len() - i,
        {
            let ghost before = txs_view(txs@).subrange(0, i as int);
            let ghost after = txs_view(txs@).subrange(0, i + 1);
            assert(after.drop_last() =~= before);
            assert(after.last() == txs[i as int]@);
            let mut tx = txs[i].clone();
            tx.block = Some(idx);
            assert(tx@ == in_block(txs[i as int]@, idx));
            let hash = tx.hash_str();
            hashes = remove_hash(&hashes, &hash);
            insert_hash(&mut new_idx, hash);
            self.save_without_idx(&tx);
            i = i + 1;
        }
        assert(txs_view(txs@).subrange(0, i as int) =~= txs_view(txs@));
        let key = self.build_key(NO_BLOCK_IDX);
        self.db.put(key, Record::Hashes(hashes));
        let key = self.build_key(name.as_str());
        self.db.put(key, Record::Hashes(new_idx));
        proof {
            let list = txs_view(txs@);
            assert forall|i: int| 0 <= i < txs.len() implies !lists(
                self@,
                NO_BLOCK_IDX@,
                (#[trigger] txs[i])@.hash_text(),
            ) && lists(self@, decimal_text(idx as nat), txs[i]@.hash_text()) by {
                assert(list[i] == txs[i]@);
                update_pending_partitions(old(self)@, list, idx, i);
            }
            assert forall|hash: Seq<char>| #[trigger]
                lists(old(self)@, decimal_text(idx as nat), hash) implies lists(
                self@,
                decimal_text(idx as nat),
                hash,
            ) by {
                let held = hashes_at(old(self)@, tx_key(decimal_text(idx as nat)))->Found_0;
                with_hashes_keeps(held, list, hash);
            }
            if sound(old(self)@) {
                update_pending_keeps_sound(old(self)@, list, idx);
            }
            store_stays_tidy(old(self)@, list[0], list, idx);
        }
        Ok(())
    }

    /// The key of a name in the transaction index.
    fn build_key(&self, value: &str) -> (key: String)
        ensures
            key@ == tx_key(value@),
    {
        prefixed("tx.", value)
    }

    /// Writes a transaction under its hash.
    fn save_without_idx(&mut self, tx: &Tx)
        ensures
            final(self)@ == with_record(old(self)@, tx@),
    {
        let hash = tx.hash_str();
        let key = self.build_key(hash.as_str());
        self.db.put(key, Record::Tx(tx.clone()));
    }
}

/// Reading the transactions of a list of hashes fails where it fails for a
/// part of the list.
proof fn txs_of_fails_on(store: Store, hashes: Seq<Seq<char>>, n: int)
    requires
        0 <= n <= hashes.len(),
        txs_of(store, hashes.subrange(0, n)).is_none(),
    ensures
        txs_of(store, hashes).is_none(),
    decreases hashes.len() - n,
{
    if n < hashes.len() {
        assert(hashes.subrange(0, n + 1).drop_last() =~= hashes.subrange(0, n));
        txs_of_fails_on(store, hashes, n + 1);
    } else {
        assert(hashes.subrange(0, n) =~= hashes);
    }
}

/// Puts a transaction in its place in an ordered list, unless the place is
/// taken.
fn insert_ordered(sorted: &mut Vec<Tx>, tx: Tx)
    ensures
        txs_view(final(sorted)@) == ordered_insert(txs_view(old(sorted)@), tx@),
{
    let mut i: usize = 0;
    while i < sorted.len() && sorted[i].precedes(&tx)
        invariant
            i <= sorted.len(),
            place_of(txs_view(sorted@), tx@, 0) == place_of(txs_view(sorted@), tx@, i as int),
        decreases sorted.len() - i,
    {
        i = i + 1;
    }
    if i < sorted.len() && !tx.precedes(&sorted[i]) {
        return ;
    }
    sorted.insert(i, tx);
    assert(txs_view(sorted@) =~= txs_view(old(sorted)@).insert(i as int, tx@));
}

/// Whether the set kept under a name holds a hash.
pub open spec fn lists(store: Store, name: Seq<char>, hash: Seq<char>) -> bool {
    match hashes_at(store, tx_key(name)) {
        Lookup::Found(hashes) => hashes.contains(hash),
        _ => false,
    }
}

/// Whether every transaction of a store is kept under its own hash.
pub open spec fn consistent(store: Store) -> bool {
    forall|hash: Seq<char>|
        match #[trigger] tx_at(store, tx_key(hash)) {
            Lookup::Found(tx) => tx.hash_text() == hash,
            _ => true,
        }
}

/// A set to which a hash was added holds it, holds what it held before, and
/// is not changed by adding the hash again.
pub proof fn with_hash_holds(hashes: Seq<Seq<char>>, hash: Seq<char>)
    ensures
        with_hash(hashes, hash).contains(hash),
        forall|other: Seq<char>|
            #[trigger] hashes.contains(other) ==> with_hash(hashes, hash).contains(other),
        with_hash(with_hash(hashes, hash), hash) == with_hash(hashes, hash),
{
    if !hashes.contains(hash) {
        let added = hashes.push(hash);
        assert(added[hashes.len() as int] == hash);
        assert forall|other: Seq<char>| hashes.contains(other) implies added.contains(other) by {
            let j = choose|j: int| 0 <= j < hashes.len() && hashes[j] == other;
            assert(added[j] == other);
        }
    }
}

/// A set from which a hash was taken holds it no more, and holds nothing
/// that it did not hold before.
pub proof fn without_hash_lacks(hashes: Seq<Seq<char>>, hash: Seq<char>)
    ensures
        !without_hash(hashes, hash).contains(hash),
        forall|other: Seq<char>|
            #[trigger] without_hash(hashes, hash).contains(other) ==> hashes.contains(other),
    decreases hashes.len(),
{
    if hashes.len() > 0 {
        let front = hashes.drop_last();
        without_hash_lacks(front, hash);
        let rest = without_hash(hashes, hash);
        assert forall|other: Seq<char>| rest.contains(other) implies hashes.contains(other) by {
            let j = choose|j: int| 0 <= j < rest.len() && rest[j] == other;
            if hashes.last() != hash && j == rest.len() - 1 {
                assert(hashes[hashes.len() - 1] == other);
            } else {
                assert(without_hash(front, hash)[j] == other);
                assert(without_hash(front, hash).contains(other));
                let k = choose|k: int| 0 <= k < front.len() && front[k] == other;
                assert(hashes[k] == other);
            }
        }
        if rest.contains(hash) {
            let j = choose|j: int| 0 <= j < rest.len() && rest[j] == hash;
            assert(without_hash(front, hash)[j] == hash);
        }
    }
}

/// The key of a hash is no key of a block's set and not the key of the
/// pending set, and the pending set's key is no key of a block's set.
pub proof fn tx_keys_differ(tx: TxView, idx: u64)
    ensures
        tx_key(tx.hash_text()) != tx_key(NO_BLOCK_IDX@),
        tx_key(tx.hash_text()) != tx_key(decimal_text(idx as nat)),
        tx_key(NO_BLOCK_IDX@) != tx_key(decimal_text(idx as nat)),
{
    reveal_strlit("empty");
    let numeral = decimal_text(idx as nat);
    decimal_text_is_numeral(idx as nat);
    decimal_text_is_short(idx as nat);
    hex_text_is_hex(tx.digest());
    assert(is_decimal_digit(numeral[0]));
    if tx_key(tx.hash_text()) == tx_key(NO_BLOCK_IDX@) {
        prefix_cancels("tx."@, tx.hash_text(), NO_BLOCK_IDX@);
    }
    if tx_key(tx.hash_text()) == tx_key(numeral) {
        prefix_cancels("tx."@, tx.hash_text(), numeral);
    }
    if tx_key(NO_BLOCK_IDX@) == tx_key(numeral) {
        prefix_cancels("tx."@, NO_BLOCK_IDX@, numeral);
        assert(NO_BLOCK_IDX@[0] == 'e');
    }
}

/// Adding a hash to a set that holds it changes nothing.
proof fn index_insert_again(store: Store, name: Seq<char>, hash: Seq<char>)
    requires
        lists(store, name, hash),
    ensures
        index_insert(store, name, hash) == Some(store),
{
    assert(store.insert(tx_key(name), store[tx_key(name)]) =~= store);
}

/// After a hash was added to a set, the set holds it, and every set that
/// held it holds it still.
proof fn index_insert_lists(store: Store, name: Seq<char>, hash: Seq<char>, other: Seq<char>)
    requires
        index_insert(store, name, hash).is_some(),
    ensures
        lists(index_insert(store, name, hash).unwrap(), name, hash),
        lists(store, other, hash) ==> lists(index_insert(store, name, hash).unwrap(), other, hash),
{
    let held = hashes_at(store, tx_key(name))->Found_0;
    with_hash_holds(held, hash);
}

/// Saving is idempotent: a transaction that was saved can be saved again,
/// and the store is then what it was after the first time. Each of its
/// sets, the sender's among them, holds its hash as it did.
pub proof fn save_is_idempotent(store: Store, tx: TxView)
    requires
        saved(store, tx).1,
    ensures
        saved(saved(store, tx).0, tx) == (saved(store, tx).0, true),
        lists(saved(store, tx).0, tx.from, tx.hash_text()),
        lists(saved(store, tx).0, tx.to, tx.hash_text()),
        lists(saved(store, tx).0, block_name(tx.block), tx.hash_text()),
        tx_at(saved(store, tx).0, tx_key(tx.hash_text())) == Lookup::Found(tx),
{
    reveal(saved);
    let hash = tx.hash_text();
    let written = with_record(store, tx);
    let by_sender = index_insert(written, tx.from, hash).unwrap();
    let by_recipient = index_insert(by_sender, tx.to, hash).unwrap();
    let by_block = index_insert(by_recipient, block_name(tx.block), hash).unwrap();
    index_insert_lists(written, tx.from, hash, tx.from);
    index_insert_lists(by_sender, tx.to, hash, tx.from);
    index_insert_lists(by_recipient, block_name(tx.block), hash, tx.from);
    index_insert_lists(by_recipient, block_name(tx.block), hash, tx.to);
    assert(by_block[tx_key(hash)] == RecordView::Tx(tx));
    assert(with_record(by_block, tx) =~= by_block);
    index_insert_again(by_block, tx.from, hash);
    index_insert_again(by_block, tx.to, hash);
    index_insert_again(by_block, block_name(tx.block), hash);
}

/// Saving keeps a store consistent.
pub proof fn save_keeps_consistent(store: Store, tx: TxView)
    requires
        consistent(store),
    ensures
        consistent(saved(store, tx).0),
{
    reveal(saved);
    let after = saved(store, tx).0;
    assert forall|hash: Seq<char>|
        match #[trigger] tx_at(after, tx_key(hash)) {
            Lookup::Found(found) => found.hash_text() == hash,
            _ => true,
        } by {
        if tx_key(hash) == tx_key(tx.hash_text()) {
            prefix_cancels("tx."@, hash, tx.hash_text());
        }
        assert(tx_at(store, tx_key(hash)) is Found ==> tx_at(store, tx_key(hash))->Found_0.hash_text()
            == hash);
    }
}

/// After transactions were written again as part of a block, each is found
/// under its hash with the block's index, and the store is still
/// consistent if it was.
proof fn moved_records_found(store: Store, txs: Seq<TxView>, idx: u64, i: int)
    requires
        0 <= i < txs.len(),
    ensures
        match tx_at(with_moved_records(store, txs, idx), tx_key(txs[i].hash_text())) {
            Lookup::Found(tx) => tx.block == Some(idx) && tx.hash_text() == txs[i].hash_text(),
            _ => false,
        },
    decreases txs.len(),
{
    let front = with_moved_records(store, txs.drop_last(), idx);
    let last = in_block(txs.last(), idx);
    let after = with_moved_records(store, txs, idx);
    let key = tx_key(txs[i].hash_text());
    assert(after == front.insert(tx_key(last.hash_text()), RecordView::Tx(last)));
    assert(last.hash_text() == txs.last().hash_text());
    if i < txs.len() - 1 {
        moved_records_found(store, txs.drop_last(), idx, i);
        assert(txs.drop_last()[i] == txs[i]);
        if tx_key(last.hash_text()) == key {
            prefix_cancels("tx."@, last.hash_text(), txs[i].hash_text());
            assert(after[key] == RecordView::Tx(last));
        } else {
            assert(after[key] == front[key]);
        }
    } else {
        assert(after[key] == RecordView::Tx(last));
    }
}

/// Writing transactions again as part of a block changes only keys of
/// hashes, and keeps a store consistent.
proof fn moved_records_keep(store: Store, txs: Seq<TxView>, idx: u64)
    ensures
        hashes_at(with_moved_records(store, txs, idx), tx_key(NO_BLOCK_IDX@)) == hashes_at(
            store,
            tx_key(NO_BLOCK_IDX@),
        ),
        consistent(store) ==> consistent(with_moved_records(store, txs, idx)),
    decreases txs.len(),
{
    if txs.len() > 0 {
        let front = with_moved_records(store, txs.drop_last(), idx);
        let tx = in_block(txs.last(), idx);
        moved_records_keep(store, txs.drop_last(), idx);
        tx_keys_differ(tx, idx);
        if consistent(store) {
            let after = with_record(front, tx);
            assert forall|hash: Seq<char>|
                match #[trigger] tx_at(after, tx_key(hash)) {
                    Lookup::Found(found) => found.hash_text() == hash,
                    _ => true,
                } by {
                if tx_key(hash) == tx_key(tx.hash_text()) {
                    prefix_cancels("tx."@, hash, tx.hash_text());
                }
                assert(tx_at(front, tx_key(hash)) is Found ==> tx_at(
                    front,
                    tx_key(hash),
                )->Found_0.hash_text() == hash);
            }
        }
    }
}

/// A set without the hashes of some transactions holds none of them, and
/// nothing that it did not hold before.
proof fn without_hashes_lacks(hashes: Seq<Seq<char>>, txs: Seq<TxView>, i: int)
    requires
        0 <= i < txs.len(),
    ensures
        !without_hashes(hashes, txs).contains(txs[i].hash_text()),
    decreases txs.len(),
{
    let front = without_hashes(hashes, txs.drop_last());
    without_hash_lacks(front, txs.last().hash_text());
    if i < txs.len() - 1 {
        without_hashes_lacks(hashes, txs.drop_last(), i);
    }
}

/// A set to which the hashes of some transactions were added holds the hash
/// of each.
proof fn with_hashes_holds(held: Seq<Seq<char>>, txs: Seq<TxView>, i: int)
    requires
        0 <= i < txs.len(),
    ensures
        with_hashes(held, txs).contains(txs[i].hash_text()),
    decreases txs.len(),
{
    with_hash_holds(with_hashes(held, txs.drop_last()), txs.last().hash_text());
    if i < txs.len() - 1 {
        with_hashes_holds(held, txs.drop_last(), i);
    }
}

/// A set to which the hashes of some transactions were added holds what it
/// held before.
proof fn with_hashes_keeps(held: Seq<Seq<char>>, txs: Seq<TxView>, hash: Seq<char>)
    requires
        held.contains(hash),
    ensures
        with_hashes(held, txs).contains(hash),
    decreases txs.len(),
{
    if txs.len() > 0 {
        with_hashes_keeps(held, txs.drop_last(), hash);
        with_hash_holds(with_hashes(held, txs.drop_last()), txs.last().hash_text());
    }
}

/// Every member of a set to which the hashes of some transactions were
/// added was in the set before or is the hash of one of them.
proof fn with_hashes_within(held: Seq<Seq<char>>, txs: Seq<TxView>, hash: Seq<char>)
    requires
        with_hashes(held, txs).contains(hash),
    ensures
        held.contains(hash) || exists|j: int|
            0 <= j < txs.len() && (#[trigger] txs[j]).hash_text() == hash,
    decreases txs.len(),
{
    if txs.len() > 0 {
        let front = with_hashes(held, txs.drop_last());
        if txs.last().hash_text() == hash {
            assert(txs[txs.len() - 1].hash_text() == hash);
        } else {
            if !front.contains(hash) {
                let k = choose|k: int|
                    0 <= k < with_hashes(held, txs).len() && with_hashes(held, txs)[k] == hash;
                if !front.contains(txs.last().hash_text()) {
                    if k < front.len() {
                        assert(front[k] == hash);
                    }
                }
            }
            with_hashes_within(held, txs.drop_last(), hash);
            if !held.contains(hash) {
                let j = choose|j: int|
                    0 <= j < txs.drop_last().len() && (#[trigger] txs.drop_last()[j]).hash_text()
                        == hash;
                assert(txs[j].hash_text() == hash);
            }
        }
    }
}

/// Each transaction read for a list of hashes is kept under one of them.
proof fn txs_of_member(store: Store, hashes: Seq<Seq<char>>, i: int) -> (hash: Seq<char>)
    requires
        txs_of(store, hashes).is_some(),
        0 <= i < txs_of(store, hashes).unwrap().len(),
    ensures
        hashes.contains(hash),
        tx_at(store, tx_key(hash)) == Lookup::Found(txs_of(store, hashes).unwrap()[i]),
    decreases hashes.len(),
{
    let front = txs_of(store, hashes.drop_last()).unwrap();
    if i < front.len() {
        let hash = txs_of_member(store, hashes.drop_last(), i);
        let j = choose|j: int| 0 <= j < hashes.drop_last().len() && hashes.drop_last()[j] == hash;
        assert(hashes[j] == hash);
        hash
    } else {
        assert(hashes[hashes.len() - 1] == hashes.last());
        hashes.last()
    }
}

/// A transaction kept under one of a list of hashes is among those read for
/// the list, where they can be read.
proof fn txs_of_holds(store: Store, hashes: Seq<Seq<char>>, hash: Seq<char>)
    requires
        txs_of(store, hashes).is_some(),
        hashes.contains(hash),
        tx_at(store, tx_key(hash)) is Found,
    ensures
        txs_of(store, hashes).unwrap().contains(tx_at(store, tx_key(hash))->Found_0),
    decreases hashes.len(),
{
    let tx = tx_at(store, tx_key(hash))->Found_0;
    let front = txs_of(store, hashes.drop_last()).unwrap();
    let all = txs_of(store, hashes).unwrap();
    if hashes.last() == hash {
        assert(all[all.len() - 1] == tx);
    } else {
        let j = choose|j: int| 0 <= j < hashes.len() && hashes[j] == hash;
        assert(hashes.drop_last()[j] == hash);
        txs_of_holds(store, hashes.drop_last(), hash);
        let k = choose|k: int| 0 <= k < front.len() && front[k] == tx;
        assert(all[k] == tx);
    }
}

/// Moving transactions into a block parts them from the pending: the
/// pending set holds the hash of none of them, the block's set holds the
/// hash of each beside all it held before, and each is found under its hash
/// with the block's index. Where every hash of the block's set had its
/// transaction, every one of the moved is among the block's transactions.
/// In a consistent store none of the pending transactions has the hash of
/// one of the moved.
pub proof fn update_pending_partitions(store: Store, txs: Seq<TxView>, idx: u64, i: int)
    requires
        moved(store, txs, idx).1,
        0 <= i < txs.len(),
    ensures
        !lists(moved(store, txs, idx).0, NO_BLOCK_IDX@, txs[i].hash_text()),
        lists(moved(store, txs, idx).0, decimal_text(idx as nat), txs[i].hash_text()),
        forall|hash: Seq<char>|
            #[trigger] lists(store, decimal_text(idx as nat), hash) ==> lists(
                moved(store, txs, idx).0,
                decimal_text(idx as nat),
                hash,
            ),
        match tx_at(moved(store, txs, idx).0, tx_key(txs[i].hash_text())) {
            Lookup::Found(tx) => tx.block == Some(idx) && tx.hash_text() == txs[i].hash_text(),
            _ => false,
        },
        filed(store, decimal_text(idx as nat)) ==> match txs_under(
            moved(store, txs, idx).0,
            decimal_text(idx as nat),
        ) {
            Some(block) => exists|j: int|
                0 <= j < block.len() && (#[trigger] block[j]).hash_text() == txs[i].hash_text()
                    && block[j].block == Some(idx),
            None => false,
        },
        consistent(store) ==> consistent(moved(store, txs, idx).0) && match txs_under(
            moved(store, txs, idx).0,
            NO_BLOCK_IDX@,
        ) {
            Some(pending) => forall|j: int|
                0 <= j < pending.len() ==> (#[trigger] pending[j]).hash_text()
                    != txs[i].hash_text(),
            None => true,
        },
{
    let pending = hashes_at(store, tx_key(NO_BLOCK_IDX@))->Found_0;
    let held = hashes_at(store, tx_key(decimal_text(idx as nat)))->Found_0;
    let rewritten = with_moved_records(store, txs, idx);
    let after = moved(store, txs, idx).0;
    let hash = txs[i].hash_text();
    let set = with_hashes(held, txs);
    tx_keys_differ(txs[i], idx);
    without_hashes_lacks(pending, txs, i);
    with_hashes_holds(held, txs, i);
    moved_records_found(store, txs, idx, i);
    moved_records_keep(store, txs, idx);
    assert forall|other: Seq<char>| #[trigger] lists(store, decimal_text(idx as nat), other) implies lists(
        after,
        decimal_text(idx as nat),
        other,
    ) by {
        with_hashes_keeps(held, txs, other);
    }
    if filed(store, decimal_text(idx as nat)) {
        assert forall|k: int| 0 <= k < set.len() implies tx_at(after, tx_key(#[trigger] set[k]))
            is Found by {
            assert(set.contains(set[k]));
            with_hashes_within(held, txs, set[k]);
            if held.contains(set[k]) {
                let h = choose|h: int| 0 <= h < held.len() && held[h] == set[k];
                assert(tx_at(store, tx_key(held[h])) is Found);
                moved_records_stay(store, txs, idx, tx_key(set[k]));
            } else {
                let j = choose|j: int|
                    0 <= j < txs.len() && (#[trigger] txs[j]).hash_text() == set[k];
                moved_records_found(store, txs, idx, j);
                tx_keys_differ(txs[j], idx);
            }
        }
        txs_of_all_found(after, set);
        txs_of_holds(after, set, hash);
        let block = txs_under(after, decimal_text(idx as nat)).unwrap();
        let found = tx_at(after, tx_key(hash))->Found_0;
        let j = choose|j: int| 0 <= j < block.len() && block[j] == found;
        assert(block[j].hash_text() == hash);
    }
    if consistent(store) {
        assert forall|other: Seq<char>|
            match #[trigger] tx_at(after, tx_key(other)) {
                Lookup::Found(tx) => tx.hash_text() == other,
                _ => true,
            } by {
            assert(tx_at(rewritten, tx_key(other)) is Found ==> tx_at(
                rewritten,
                tx_key(other),
            )->Found_0.hash_text() == other);
        }
        match txs_under(after, NO_BLOCK_IDX@) {
            Some(left) => {
                assert forall|j: int| 0 <= j < left.len() implies (#[trigger] left[j]).hash_text()
                    != hash by {
                    let under = txs_of_member(after, without_hashes(pending, txs), j);
                    assert(tx_at(after, tx_key(under)) == Lookup::Found(left[j]));
                }
            },
            None => {},
        }
    }
}

/// Writing transactions again as part of a block leaves every transaction
/// that was there under its key.
proof fn moved_records_stay(store: Store, txs: Seq<TxView>, idx: u64, key: Seq<char>)
    requires
        tx_at(store, key) is Found,
    ensures
        tx_at(with_moved_records(store, txs, idx), key) is Found,
    decreases txs.len(),
{
    if txs.len() > 0 {
        moved_records_stay(store, txs.drop_last(), idx, key);
    }
}

/// Whether a list of transactions is in order, no two at the same place.
pub open spec fn in_order(txs: Seq<TxView>) -> bool {
    forall|i: int, j: int| 0 <= i < j < txs.len() ==> (#[trigger] txs[i]).before(#[trigger] txs[j])
}

/// The place of a transaction lies after every member that comes before
/// it, and at a member that does not.
proof fn place_of_parts(sorted: Seq<TxView>, tx: TxView, i: int)
    requires
        0 <= i <= sorted.len(),
    ensures
        i <= place_of(sorted, tx, i) <= sorted.len(),
        forall|k: int| i <= k < place_of(sorted, tx, i) ==> (#[trigger] sorted[k]).before(tx),
        place_of(sorted, tx, i) < sorted.len() ==> !sorted[place_of(sorted, tx, i)].before(tx),
    decreases sorted.len() - i,
{
    if i < sorted.len() && sorted[i].before(tx) {
        place_of_parts(sorted, tx, i + 1);
    }
}

/// Whether a list holds a transaction at the place of a given one.
pub open spec fn holds_place(txs: Seq<TxView>, tx: TxView) -> bool {
    exists|j: int| 0 <= j < txs.len() && (#[trigger] txs[j]).same_place(tx)
}

/// A list in order stays in order when a transaction is put in its place.
proof fn ordered_insert_in_order(sorted: Seq<TxView>, tx: TxView)
    requires
        in_order(sorted),
    ensures
        in_order(ordered_insert(sorted, tx)),
{
    let place = place_of(sorted, tx, 0);
    let after = ordered_insert(sorted, tx);
    place_of_parts(sorted, tx, 0);
    if !(place < sorted.len() && !tx.before(sorted[place])) {
        assert forall|i: int, j: int| 0 <= i < j < after.len() implies (#[trigger] after[i]).before(
            #[trigger] after[j],
        ) by {
            if j == place {
                assert(after[i] == sorted[i]);
            } else if i == place {
                assert(after[j] == sorted[j - 1]);
                if j - 1 > place {
                    assert(sorted[place].before(sorted[j - 1]));
                    tx_order_is_strict(tx, sorted[place], sorted[j - 1]);
                }
            } else {
                let a = if i < place { i } else { i - 1 };
                let b = if j < place { j } else { j - 1 };
                assert(after[i] == sorted[a]);
                assert(after[j] == sorted[b]);
            }
        }
    }
}

/// A list in which a transaction was put holds a transaction at its place,
/// holds what it held before, and beside the new one nothing else.
proof fn ordered_insert_members(sorted: Seq<TxView>, tx: TxView)
    ensures
        holds_place(ordered_insert(sorted, tx), tx),
        forall|other: TxView|
            #[trigger] sorted.contains(other) ==> ordered_insert(sorted, tx).contains(other),
        forall|other: TxView|
            #[trigger] ordered_insert(sorted, tx).contains(other) ==> other == tx
                || sorted.contains(other),
{
    let place = place_of(sorted, tx, 0);
    let after = ordered_insert(sorted, tx);
    place_of_parts(sorted, tx, 0);
    if place < sorted.len() && !tx.before(sorted[place]) {
        tx_order_is_total(sorted[place], tx);
        assert(after[place].same_place(tx));
    } else {
        assert(after[place] == tx);
        assert(after[place].same_place(tx));
        assert forall|other: TxView| #[trigger] sorted.contains(other) implies after.contains(
            other,
        ) by {
            let k = choose|k: int| 0 <= k < sorted.len() && sorted[k] == other;
            let moved = if k < place { k } else { k + 1 };
            assert(after[moved] == other);
        }
        assert forall|other: TxView| #[trigger] after.contains(other) implies other == tx
            || sorted.contains(other) by {
            let k = choose|k: int| 0 <= k < after.len() && after[k] == other;
            if k != place {
                let from = if k < place { k } else { k - 1 };
                assert(sorted[from] == other);
            }
        }
    }
}

/// A list that holds a transaction at some place holds one at that place
/// after another transaction was put in.
proof fn ordered_insert_keeps_place(sorted: Seq<TxView>, tx: TxView, other: TxView)
    requires
        holds_place(sorted, other),
    ensures
        holds_place(ordered_insert(sorted, tx), other),
{
    let j = choose|j: int| 0 <= j < sorted.len() && (#[trigger] sorted[j]).same_place(other);
    ordered_insert_members(sorted, tx);
    assert(sorted.contains(sorted[j]));
    let after = ordered_insert(sorted, tx);
    let k = choose|k: int| 0 <= k < after.len() && after[k] == sorted[j];
    assert(after[k].same_place(other));
}

/// Putting transactions in order gives a list in order by timestamp, then
/// hash, with no two members at the same place.
pub proof fn ordered_is_in_order(txs: Seq<TxView>)
    ensures
        in_order(ordered(txs)),
    decreases txs.len(),
{
    if txs.len() > 0 {
        ordered_is_in_order(txs.drop_last());
        ordered_insert_in_order(ordered(txs.drop_last()), txs.last());
    }
}

/// Every member of a list put in order is one of the transactions, and
/// every transaction has a member at its place.
pub proof fn ordered_holds_all(txs: Seq<TxView>, tx: TxView)
    ensures
        ordered(txs).contains(tx) ==> txs.contains(tx),
        txs.contains(tx) ==> holds_place(ordered(txs), tx),
    decreases txs.len(),
{
    if txs.len() > 0 {
        let front = txs.drop_last();
        ordered_holds_all(front, tx);
        ordered_insert_members(ordered(front), txs.last());
        if ordered(txs).contains(tx) {
            if tx == txs.last() {
                assert(txs[txs.len() - 1] == tx);
            } else {
                assert(front.contains(tx));
                let k = choose|k: int| 0 <= k < front.len() && front[k] == tx;
                assert(txs[k] == tx);
            }
        }
        if txs.contains(tx) {
            let k = choose|k: int| 0 <= k < txs.len() && txs[k] == tx;
            if k < txs.len() - 1 {
                assert(front[k] == tx);
                ordered_insert_keeps_place(ordered(front), txs.last(), tx);
            }
        }
    }
}

/// Whether every hash of the set kept under a name has its transaction.
pub open spec fn filed(store: Store, name: Seq<char>) -> bool {
    match hashes_at(store, tx_key(name)) {
        Lookup::Found(hashes) => forall|i: int|
            0 <= i < hashes.len() ==> tx_at(store, tx_key(#[trigger] hashes[i])) is Found,
        _ => false,
    }
}

/// A set without the hashes of some transactions holds only what it held
/// before.
proof fn without_hashes_within(hashes: Seq<Seq<char>>, txs: Seq<TxView>, hash: Seq<char>)
    requires
        without_hashes(hashes, txs).contains(hash),
    ensures
        hashes.contains(hash),
    decreases txs.len(),
{
    if txs.len() > 0 {
        let front = without_hashes(hashes, txs.drop_last());
        without_hash_lacks(front, txs.last().hash_text());
        assert(front.contains(hash));
        without_hashes_within(hashes, txs.drop_last(), hash);
    }
}

/// The transactions of a list of hashes can be read where each hash has its
/// transaction.
proof fn txs_of_all_found(store: Store, hashes: Seq<Seq<char>>)
    requires
        forall|i: int| 0 <= i < hashes.len() ==> tx_at(store, tx_key(#[trigger] hashes[i])) is Found,
    ensures
        txs_of(store, hashes).is_some(),
    decreases hashes.len(),
{
    if hashes.len() > 0 {
        assert forall|i: int| 0 <= i < hashes.drop_last().len() implies tx_at(
            store,
            tx_key(#[trigger] hashes.drop_last()[i]),
        ) is Found by {
            assert(hashes.drop_last()[i] == hashes[i]);
        }
        txs_of_all_found(store, hashes.drop_last());
        assert(tx_at(store, tx_key(hashes[hashes.len() - 1])) is Found);
    }
}

/// Moving all pending transactions into a block whose set can be read
/// leaves none pending: in a consistent store in which every pending hash
/// has its transaction, the pending set is empty afterwards.
pub proof fn moving_all_pending_leaves_none(store: Store, idx: u64)
    requires
        consistent(store),
        filed(store, NO_BLOCK_IDX@),
        hashes_at(store, tx_key(decimal_text(idx as nat))) is Found,
    ensures
        txs_under(store, NO_BLOCK_IDX@).is_some(),
        moved(store, txs_under(store, NO_BLOCK_IDX@).unwrap(), idx).1,
        hashes_at(
            moved(store, txs_under(store, NO_BLOCK_IDX@).unwrap(), idx).0,
            tx_key(NO_BLOCK_IDX@),
        ) == Lookup::Found(Seq::<Seq<char>>::empty()),
        txs_under(moved(store, txs_under(store, NO_BLOCK_IDX@).unwrap(), idx).0, NO_BLOCK_IDX@)
            == Some(Seq::<TxView>::empty()),
{
    let hashes = hashes_at(store, tx_key(NO_BLOCK_IDX@))->Found_0;
    txs_of_all_found(store, hashes);
    let pending = txs_of(store, hashes).unwrap();
    let left = without_hashes(hashes, pending);
    if left.len() > 0 {
        let hash = left[0];
        assert(left.contains(hash));
        without_hashes_within(hashes, pending, hash);
        let k = choose|k: int| 0 <= k < hashes.len() && hashes[k] == hash;
        assert(tx_at(store, tx_key(hashes[k])) is Found);
        txs_of_holds(store, hashes, hash);
        let tx = tx_at(store, tx_key(hash))->Found_0;
        let j = choose|j: int| 0 <= j < pending.len() && pending[j] == tx;
        without_hashes_lacks(hashes, pending, j);
    }
    assert(left =~= Seq::<Seq<char>>::empty());
    let tx = TxView {
        hash: Seq::empty(),
        from: Seq::empty(),
        to: Seq::empty(),
        amount: Seq::empty(),
        nonce: 0,
        timestamp: 0,
        signature: Seq::empty(),
        block: None,
    };
    tx_keys_differ(tx, idx);
}

/// Whether every hash of every set of a store has its transaction.
pub open spec fn well_filed(store: Store) -> bool {
    forall|name: Seq<char>| #[trigger] filed_or_unread(store, name)
}

/// Whether the set kept under a name, if it can be read, holds only hashes
/// that have their transaction.
pub open spec fn filed_or_unread(store: Store, name: Seq<char>) -> bool {
    hashes_at(store, tx_key(name)) is Found ==> filed(store, name)
}

/// Whether a store is sound: every transaction is kept under its own hash,
/// and every hash of every set has its transaction.
pub open spec fn sound(store: Store) -> bool {
    consistent(store) && well_filed(store)
}

/// The empty store is sound.
pub proof fn empty_store_is_sound()
    ensures
        sound(Map::<Seq<char>, RecordView>::empty()),
{
    let store = Map::<Seq<char>, RecordView>::empty();
    assert forall|name: Seq<char>| #[trigger] filed_or_unread(store, name) by {
        assert(hashes_at(store, tx_key(name)) == Lookup::Found(Seq::<Seq<char>>::empty()));
    }
}

/// Writing a transaction under its hash keeps a store sound.
proof fn with_record_keeps_sound(store: Store, tx: TxView)
    requires
        sound(store),
    ensures
        sound(with_record(store, tx)),
        tx_at(with_record(store, tx), tx_key(tx.hash_text())) is Found,
{
    let after = with_record(store, tx);
    assert forall|hash: Seq<char>|
        match #[trigger] tx_at(after, tx_key(hash)) {
            Lookup::Found(found) => found.hash_text() == hash,
            _ => true,
        } by {
        if tx_key(hash) == tx_key(tx.hash_text()) {
            prefix_cancels("tx."@, hash, tx.hash_text());
        }
        assert(tx_at(store, tx_key(hash)) is Found ==> tx_at(store, tx_key(hash))->Found_0.hash_text()
            == hash);
    }
    assert forall|name: Seq<char>| #[trigger] filed_or_unread(after, name) by {
        assert(filed_or_unread(store, name));
        if hashes_at(after, tx_key(name)) is Found {
            let hashes = hashes_at(after, tx_key(name))->Found_0;
            assert(hashes_at(store, tx_key(name)) == Lookup::Found(hashes));
            assert forall|i: int| 0 <= i < hashes.len() implies tx_at(
                after,
                tx_key(#[trigger] hashes[i]),
            ) is Found by {
                assert(tx_at(store, tx_key(hashes[i])) is Found);
            }
        }
    }
}

/// Adding the hash of a transaction that is there to a set keeps a store
/// sound, and keeps every transaction.
proof fn index_insert_keeps_sound(store: Store, name: Seq<char>, hash: Seq<char>)
    requires
        sound(store),
        tx_at(store, tx_key(hash)) is Found,
        index_insert(store, name, hash).is_some(),
    ensures
        sound(index_insert(store, name, hash).unwrap()),
        tx_at(index_insert(store, name, hash).unwrap(), tx_key(hash)) is Found,
{
    let after = index_insert(store, name, hash).unwrap();
    let held = hashes_at(store, tx_key(name))->Found_0;
    assert(filed_or_unread(store, name));
    assert forall|other: Seq<char>|
        match #[trigger] tx_at(after, tx_key(other)) {
            Lookup::Found(found) => found.hash_text() == other,
            _ => true,
        } by {
        assert(tx_at(store, tx_key(other)) is Found ==> tx_at(
            store,
            tx_key(other),
        )->Found_0.hash_text() == other);
    }
    assert forall|other: Seq<char>| #[trigger] filed_or_unread(after, other) by {
        assert(filed_or_unread(store, other));
        if hashes_at(after, tx_key(other)) is Found {
            let hashes = hashes_at(after, tx_key(other))->Found_0;
            assert forall|i: int| 0 <= i < hashes.len() implies tx_at(
                after,
                tx_key(#[trigger] hashes[i]),
            ) is Found by {
                if tx_key(other) == tx_key(name) {
                    if i < held.len() {
                        assert(hashes[i] == held[i]);
                        assert(tx_at(store, tx_key(held[i])) is Found);
                    } else {
                        assert(hashes[i] == hash);
                    }
                } else {
                    assert(hashes_at(store, tx_key(other)) == Lookup::Found(hashes));
                    assert(tx_at(store, tx_key(hashes[i])) is Found);
                }
            }
        }
    }
}

/// Saving keeps a store sound, whether it succeeds or stops on the way.
pub proof fn save_keeps_sound(store: Store, tx: TxView)
    requires
        sound(store),
    ensures
        sound(saved(store, tx).0),
{
    reveal(saved);
    let hash = tx.hash_text();
    let written = with_record(store, tx);
    with_record_keeps_sound(store, tx);
    if index_insert(written, tx.from, hash).is_some() {
        let by_sender = index_insert(written, tx.from, hash).unwrap();
        index_insert_keeps_sound(written, tx.from, hash);
        if index_insert(by_sender, tx.to, hash).is_some() {
            let by_recipient = index_insert(by_sender, tx.to, hash).unwrap();
            index_insert_keeps_sound(by_sender, tx.to, hash);
            if index_insert(by_recipient, block_name(tx.block), hash).is_some() {
                index_insert_keeps_sound(by_recipient, block_name(tx.block), hash);
            }
        }
    }
}

/// Writing transactions again as part of a block keeps a store sound.
proof fn moved_records_keep_sound(store: Store, txs: Seq<TxView>, idx: u64)
    requires
        sound(store),
    ensures
        sound(with_moved_records(store, txs, idx)),
        forall|key: Seq<char>|
            #[trigger] tx_at(store, key) is Found ==> tx_at(with_moved_records(store, txs, idx), key)
                is Found,
    decreases txs.len(),
{
    if txs.len() > 0 {
        moved_records_keep_sound(store, txs.drop_last(), idx);
        with_record_keeps_sound(
            with_moved_records(store, txs.drop_last(), idx),
            in_block(txs.last(), idx),
        );
    }
}

/// Moving transactions into a block keeps a store sound.
pub proof fn update_pending_keeps_sound(store: Store, txs: Seq<TxView>, idx: u64)
    requires
        sound(store),
    ensures
        sound(moved(store, txs, idx).0),
{
    if moved(store, txs, idx).1 {
        let pending = hashes_at(store, tx_key(NO_BLOCK_IDX@))->Found_0;
        let held = hashes_at(store, tx_key(decimal_text(idx as nat)))->Found_0;
        let rewritten = with_moved_records(store, txs, idx);
        let left = without_hashes(pending, txs);
        let cleared = rewritten.insert(tx_key(NO_BLOCK_IDX@), RecordView::Hashes(left));
        let after = moved(store, txs, idx).0;
        moved_records_keep_sound(store, txs, idx);
        moved_records_keep(store, txs, idx);
        assert(filed_or_unread(store, NO_BLOCK_IDX@));
        assert(filed_or_unread(store, decimal_text(idx as nat)));
        assert forall|other: Seq<char>|
            match #[trigger] tx_at(after, tx_key(other)) {
                Lookup::Found(found) => found.hash_text() == other,
                _ => true,
            } by {
            assert(tx_at(rewritten, tx_key(other)) is Found ==> tx_at(
                rewritten,
                tx_key(other),
            )->Found_0.hash_text() == other);
        }
        assert forall|hash: Seq<char>| #[trigger] tx_at(rewritten, tx_key(hash)) is Found implies tx_at(
            after,
            tx_key(hash),
        ) is Found by {
            let tx = tx_at(rewritten, tx_key(hash))->Found_0;
            assert(tx.hash_text() == hash);
            tx_keys_differ(tx, idx);
        }
        assert forall|name: Seq<char>| #[trigger] filed_or_unread(after, name) by {
            assert(filed_or_unread(rewritten, name));
            if hashes_at(after, tx_key(name)) is Found {
                let hashes = hashes_at(after, tx_key(name))->Found_0;
                assert forall|i: int| 0 <= i < hashes.len() implies tx_at(
                    after,
                    tx_key(#[trigger] hashes[i]),
                ) is Found by {
                    if tx_key(name) == tx_key(decimal_text(idx as nat)) {
                        assert(hashes == with_hashes(held, txs));
                        assert(hashes.contains(hashes[i]));
                        with_hashes_within(held, txs, hashes[i]);
                        if held.contains(hashes[i]) {
                            let h = choose|h: int| 0 <= h < held.len() && held[h] == hashes[i];
                            assert(tx_at(store, tx_key(held[h])) is Found);
                        } else {
                            let j = choose|j: int|
                                0 <= j < txs.len() && (#[trigger] txs[j]).hash_text() == hashes[i];
                            moved_records_found(store, txs, idx, j);
                        }
                        assert(tx_at(rewritten, tx_key(hashes[i])) is Found);
                    } else if tx_key(name) == tx_key(NO_BLOCK_IDX@) {
                        assert(hashes == left);
                        assert(left.contains(hashes[i]));
                        without_hashes_within(pending, txs, hashes[i]);
                        let k = choose|k: int| 0 <= k < pending.len() && pending[k] == hashes[i];
                        assert(tx_at(store, tx_key(pending[k])) is Found);
                        assert(tx_at(rewritten, tx_key(hashes[i])) is Found);
                    } else {
                        assert(hashes_at(rewritten, tx_key(name)) == Lookup::Found(hashes));
                        assert(tx_at(rewritten, tx_key(hashes[i])) is Found);
                    }
                }
            }
        }
    }
}

/// Whether a list of hashes holds no hash twice.
pub open spec fn distinct(hashes: Seq<Seq<char>>) -> bool {
    forall|i: int, j: int| 0 <= i < j < hashes.len() ==> #[trigger] hashes[i] != #[trigger] hashes[j]
}

/// Whether the set kept under a name, if it can be read, holds no hash
/// twice.
pub open spec fn distinct_or_unread(store: Store, name: Seq<char>) -> bool {
    match hashes_at(store, tx_key(name)) {
        Lookup::Found(hashes) => distinct(hashes),
        _ => true,
    }
}

/// Whether every set of a store holds each of its hashes once.
pub open spec fn tidy(store: Store) -> bool {
    forall|name: Seq<char>| #[trigger] distinct_or_unread(store, name)
}

/// Adding a hash to a set that holds no hash twice leaves it so.
proof fn with_hash_distinct(hashes: Seq<Seq<char>>, hash: Seq<char>)
    requires
        distinct(hashes),
    ensures
        distinct(with_hash(hashes, hash)),
{
    if !hashes.contains(hash) {
        let added = hashes.push(hash);
        assert forall|i: int, j: int| 0 <= i < j < added.len() implies #[trigger] added[i]
            != #[trigger] added[j] by {
            if j == hashes.len() {
                assert(hashes[i] == added[i]);
                assert(hashes.contains(added[i]));
            } else {
                assert(hashes[i] == added[i] && hashes[j] == added[j]);
            }
        }
    }
}

/// Taking a hash out of a set that holds no hash twice leaves it so.
proof fn without_hash_distinct(hashes: Seq<Seq<char>>, hash: Seq<char>)
    requires
        distinct(hashes),
    ensures
        distinct(without_hash(hashes, hash)),
    decreases hashes.len(),
{
    if hashes.len() > 0 {
        let front = hashes.drop_last();
        assert forall|i: int, j: int| 0 <= i < j < front.len() implies #[trigger] front[i]
            != #[trigger] front[j] by {
            assert(front[i] == hashes[i] && front[j] == hashes[j]);
        }
        without_hash_distinct(front, hash);
        without_hash_lacks(front, hash);
        let rest = without_hash(hashes, hash);
        let inner = without_hash(front, hash);
        if hashes.last() != hash {
            assert forall|i: int, j: int| 0 <= i < j < rest.len() implies #[trigger] rest[i]
                != #[trigger] rest[j] by {
                if j == rest.len() - 1 {
                    assert(inner[i] == rest[i]);
                    assert(inner.contains(rest[i]));
                    assert(front.contains(rest[i]));
                    let k = choose|k: int| 0 <= k < front.len() && front[k] == rest[i];
                    assert(hashes[k] == rest[i]);
                    assert(hashes[hashes.len() - 1] == rest[j]);
                } else {
                    assert(inner[i] == rest[i] && inner[j] == rest[j]);
                }
            }
        }
    }
}

/// Taking or adding the hashes of some transactions leaves a set that holds
/// no hash twice so.
proof fn many_hashes_distinct(hashes: Seq<Seq<char>>, txs: Seq<TxView>)
    requires
        distinct(hashes),
    ensures
        distinct(without_hashes(hashes, txs)),
        distinct(with_hashes(hashes, txs)),
    decreases txs.len(),
{
    if txs.len() > 0 {
        many_hashes_distinct(hashes, txs.drop_last());
        without_hash_distinct(without_hashes(hashes, txs.drop_last()), txs.last().hash_text());
        with_hash_distinct(with_hashes(hashes, txs.drop_last()), txs.last().hash_text());
    }
}

/// The empty store is tidy, and saving and moving keep a store tidy.
pub proof fn store_stays_tidy(store: Store, tx: TxView, txs: Seq<TxView>, idx: u64)
    ensures
        tidy(Map::<Seq<char>, RecordView>::empty()),
        tidy(store) ==> tidy(saved(store, tx).0) && tidy(moved(store, txs, idx).0),
{
    let empty = Map::<Seq<char>, RecordView>::empty();
    assert forall|name: Seq<char>| #[trigger] distinct_or_unread(empty, name) by {
        assert(hashes_at(empty, tx_key(name)) == Lookup::Found(Seq::<Seq<char>>::empty()));
    }
    if tidy(store) {
        reveal(saved);
        let hash = tx.hash_text();
        let written = with_record(store, tx);
        assert forall|name: Seq<char>| #[trigger] distinct_or_unread(written, name) by {
            assert(distinct_or_unread(store, name));
        }
        index_insert_tidy(written, tx.from, hash);
        if index_insert(written, tx.from, hash).is_some() {
            let by_sender = index_insert(written, tx.from, hash).unwrap();
            index_insert_tidy(by_sender, tx.to, hash);
            if index_insert(by_sender, tx.to, hash).is_some() {
                index_insert_tidy(index_insert(by_sender, tx.to, hash).unwrap(), block_name(tx.block), hash);
            }
        }
        if moved(store, txs, idx).1 {
            let pending = hashes_at(store, tx_key(NO_BLOCK_IDX@))->Found_0;
            let held = hashes_at(store, tx_key(decimal_text(idx as nat)))->Found_0;
            let rewritten = with_moved_records(store, txs, idx);
            let after = moved(store, txs, idx).0;
            assert(distinct_or_unread(store, NO_BLOCK_IDX@));
            assert(distinct_or_unread(store, decimal_text(idx as nat)));
            many_hashes_distinct(pending, txs);
            many_hashes_distinct(held, txs);
            moved_records_tidy(store, txs, idx);
            assert forall|name: Seq<char>| #[trigger] distinct_or_unread(after, name) by {
                assert(distinct_or_unread(rewritten, name));
            }
        }
    }
}

/// Adding a hash to a set keeps a store tidy.
proof fn index_insert_tidy(store: Store, name: Seq<char>, hash: Seq<char>)
    requires
        tidy(store),
    ensures
        index_insert(store, name, hash).is_some() ==> tidy(index_insert(store, name, hash).unwrap()),
{
    if index_insert(store, name, hash).is_some() {
        let after = index_insert(store, name, hash).unwrap();
        let held = hashes_at(store, tx_key(name))->Found_0;
        assert(distinct_or_unread(store, name));
        with_hash_distinct(held, hash);
        assert forall|other: Seq<char>| #[trigger] distinct_or_unread(after, other) by {
            assert(distinct_or_unread(store, other));
        }
    }
}

/// Writing transactions again as part of a block keeps a store tidy.
proof fn moved_records_tidy(store: Store, txs: Seq<TxView>, idx: u64)
    requires
        tidy(store),
    ensures
        tidy(with_moved_records(store, txs, idx)),
    decreases txs.len(),
{
    if txs.len() > 0 {
        let front = with_moved_records(store, txs.drop_last(), idx);
        moved_records_tidy(store, txs.drop_last(), idx);
        let after = with_moved_records(store, txs, idx);
        assert forall|name: Seq<char>| #[trigger] distinct_or_unread(after, name) by {
            assert(distinct_or_unread(front, name));
        }
    }
}

/// Where each of a list of hashes has its transaction, the transactions
/// read for the list are those, one for each hash, in the list's order.
proof fn txs_of_exact(store: Store, hashes: Seq<Seq<char>>)
    requires
        forall|i: int| 0 <= i < hashes.len() ==> tx_at(store, tx_key(#[trigger] hashes[i])) is Found,
    ensures
        txs_of(store, hashes).is_some(),
        txs_of(store, hashes).unwrap().len() == hashes.len(),
        forall|i: int|
            0 <= i < hashes.len() ==> tx_at(store, tx_key(#[trigger] hashes[i])) == Lookup::Found(
                txs_of(store, hashes).unwrap()[i],
            ),
    decreases hashes.len(),
{
    if hashes.len() > 0 {
        let front = hashes.drop_last();
        assert forall|i: int| 0 <= i < front.len() implies tx_at(store, tx_key(#[trigger] front[i]))
            is Found by {
            assert(front[i] == hashes[i]);
        }
        txs_of_exact(store, front);
        assert(tx_at(store, tx_key(hashes[hashes.len() - 1])) is Found);
        assert forall|i: int| 0 <= i < hashes.len() implies tx_at(
            store,
            tx_key(#[trigger] hashes[i]),
        ) == Lookup::Found(txs_of(store, hashes).unwrap()[i]) by {
            if i < front.len() {
                assert(front[i] == hashes[i]);
            }
        }
    }
}

/// Adding to the empty set the hashes of transactions that all differ in
/// their hashes gives those hashes, in order.
proof fn with_hashes_of_distinct(txs: Seq<TxView>, hashes: Seq<Seq<char>>)
    requires
        txs.len() == hashes.len(),
        forall|i: int| 0 <= i < txs.len() ==> (#[trigger] txs[i]).hash_text() == hashes[i],
        distinct(hashes),
    ensures
        with_hashes(Seq::empty(), txs) == hashes,
    decreases txs.len(),
{
    if txs.len() > 0 {
        let front = hashes.drop_last();
        assert forall|i: int| 0 <= i < txs.drop_last().len() implies (#[trigger] txs.drop_last()[i]).hash_text()
            == front[i] by {
            assert(txs.drop_last()[i] == txs[i]);
        }
        assert forall|i: int, j: int| 0 <= i < j < front.len() implies #[trigger] front[i]
            != #[trigger] front[j] by {
            assert(front[i] == hashes[i] && front[j] == hashes[j]);
        }
        with_hashes_of_distinct(txs.drop_last(), front);
        let last = hashes.len() - 1;
        assert(txs[last].hash_text() == hashes[last]);
        if front.contains(hashes[last]) {
            let k = choose|k: int| 0 <= k < front.len() && front[k] == hashes[last];
            assert(hashes[k] == hashes[last]);
        }
        assert(front.push(hashes[last]) =~= hashes);
    } else {
        assert(hashes =~= Seq::<Seq<char>>::empty());
    }
}

/// After transactions that all differ in their hashes were written again
/// as part of a block, each is found under its hash as it stands in the
/// block.
proof fn moved_record_exact(store: Store, txs: Seq<TxView>, idx: u64, i: int)
    requires
        0 <= i < txs.len(),
        forall|a: int, b: int|
            0 <= a < b < txs.len() ==> (#[trigger] txs[a]).hash_text() != (
            #[trigger] txs[b]).hash_text(),
    ensures
        tx_at(with_moved_records(store, txs, idx), tx_key(txs[i].hash_text())) == Lookup::Found(
            in_block(txs[i], idx),
        ),
    decreases txs.len(),
{
    let front = with_moved_records(store, txs.drop_last(), idx);
    let last = in_block(txs.last(), idx);
    let after = with_moved_records(store, txs, idx);
    let key = tx_key(txs[i].hash_text());
    assert(after == front.insert(tx_key(last.hash_text()), RecordView::Tx(last)));
    assert(last.hash_text() == txs.last().hash_text());
    if i < txs.len() - 1 {
        assert forall|a: int, b: int| 0 <= a < b < txs.drop_last().len() implies (
        #[trigger] txs.drop_last()[a]).hash_text() != (#[trigger] txs.drop_last()[b]).hash_text() by {
            assert(txs.drop_last()[a] == txs[a] && txs.drop_last()[b] == txs[b]);
        }
        moved_record_exact(store, txs.drop_last(), idx, i);
        assert(txs.drop_last()[i] == txs[i]);
        assert(txs[i].hash_text() != txs[txs.len() - 1].hash_text());
        if tx_key(last.hash_text()) == key {
            prefix_cancels("tx."@, last.hash_text(), txs[i].hash_text());
        }
        assert(after[key] == front[key]);
    } else {
        assert(after[key] == RecordView::Tx(last));
    }
}

/// Moving all pending transactions into a block whose set was empty files
/// exactly them under the block: in a sound and tidy store the block's
/// transactions afterwards are the pending ones, one for one and in their
/// order, each with the block's index.
pub proof fn moving_all_pending_files_them(store: Store, idx: u64)
    requires
        sound(store),
        tidy(store),
        hashes_at(store, tx_key(NO_BLOCK_IDX@)) is Found,
        hashes_at(store, tx_key(decimal_text(idx as nat))) == Lookup::Found(
            Seq::<Seq<char>>::empty(),
        ),
    ensures
        txs_under(store, NO_BLOCK_IDX@).is_some(),
        moved(store, txs_under(store, NO_BLOCK_IDX@).unwrap(), idx).1,
        match txs_under(
            moved(store, txs_under(store, NO_BLOCK_IDX@).unwrap(), idx).0,
            decimal_text(idx as nat),
        ) {
            Some(filed) => filed.len() == txs_under(store, NO_BLOCK_IDX@).unwrap().len()
                && forall|i: int|
                0 <= i < filed.len() ==> #[trigger] filed[i] == in_block(
                    txs_under(store, NO_BLOCK_IDX@).unwrap()[i],
                    idx,
                ),
            None => false,
        },
{
    let hashes = hashes_at(store, tx_key(NO_BLOCK_IDX@))->Found_0;
    assert(filed_or_unread(store, NO_BLOCK_IDX@));
    assert(distinct_or_unread(store, NO_BLOCK_IDX@));
    txs_of_exact(store, hashes);
    let pending = txs_of(store, hashes).unwrap();
    assert forall|i: int| 0 <= i < pending.len() implies (#[trigger] pending[i]).hash_text()
        == hashes[i] by {
        assert(tx_at(store, tx_key(hashes[i])) == Lookup::Found(pending[i]));
    }
    with_hashes_of_distinct(pending, hashes);
    let after = moved(store, pending, idx).0;
    assert forall|a: int, b: int| 0 <= a < b < pending.len() implies (
    #[trigger] pending[a]).hash_text() != (#[trigger] pending[b]).hash_text() by {
        assert(hashes[a] != hashes[b]);
    }
    assert forall|i: int| 0 <= i < hashes.len() implies tx_at(after, tx_key(#[trigger] hashes[i]))
        == Lookup::Found(in_block(pending[i], idx)) by {
        moved_record_exact(store, pending, idx, i);
        tx_keys_differ(pending[i], idx);
        assert(pending[i].hash_text() == hashes[i]);
    }
    txs_of_exact(after, hashes);
    let filed = txs_of(after, hashes).unwrap();
    assert forall|i: int| 0 <= i < filed.len() implies #[trigger] filed[i] == in_block(
        pending[i],
        idx,
    ) by {
        assert(tx_at(after, tx_key(hashes[i])) == Lookup::Found(filed[i]));
    }
    let any = TxView {
        hash: Seq::empty(),
        from: Seq::empty(),
        to: Seq::empty(),
        amount: Seq::empty(),
        nonce: 0,
        timestamp: 0,
        signature: Seq::empty(),
        block: None,
    };
    tx_keys_differ(any, idx);
}

/// What a successful save does to the set of the transaction's block and to
/// the transactions kept: the set gains the hash, the transaction stands
/// under its hash, and every other transaction stays where it was.
pub proof fn save_files_under_block(store: Store, tx: TxView, other: Seq<char>)
    requires
        saved(store, tx).1,
    ensures
        hashes_at(store, tx_key(block_name(tx.block))) is Found,
        hashes_at(saved(store, tx).0, tx_key(block_name(tx.block))) == Lookup::Found(
            with_hash(hashes_at(store, tx_key(block_name(tx.block)))->Found_0, tx.hash_text()),
        ),
        tx_at(saved(store, tx).0, tx_key(tx.hash_text())) == Lookup::Found(tx),
        other != tx.hash_text() && tx_at(store, tx_key(other)) is Found ==> tx_at(
            saved(store, tx).0,
            tx_key(other),
        ) == tx_at(store, tx_key(other)),
{
    reveal(saved);
    let hash = tx.hash_text();
    let name = block_name(tx.block);
    let written = with_record(store, tx);
    let by_sender = index_insert(written, tx.from, hash).unwrap();
    let by_recipient = index_insert(by_sender, tx.to, hash).unwrap();
    let held = hashes_at(store, tx_key(name))->Found_0;
    with_hash_holds(held, hash);
    if other != hash {
        if tx_key(other) == tx_key(hash) {
            prefix_cancels("tx."@, other, hash);
        }
    }
    if tx_key(name) == tx_key(tx.from) || tx_key(name) == tx_key(tx.to) {
        with_hash_holds(with_hash(held, hash), hash);
    }
}

/// The hashes of a list of transactions, in order.
pub open spec fn hash_texts(txs: Seq<TxView>) -> Seq<Seq<char>> {
    Seq::new(txs.len(), |i: int| txs[i].hash_text())
}

/// Saving, one after the other, transactions of one block that all differ
/// in their hashes, into a store whose set for the block held nothing,
/// files exactly them under the block, in their order.
pub proof fn saved_block_transactions_are_filed(store: Store, list: Seq<TxView>, idx: u64)
    requires
        saved_all(store, list).1,
        hashes_at(store, tx_key(decimal_text(idx as nat))) == Lookup::Found(
            Seq::<Seq<char>>::empty(),
        ),
        forall|i: int| 0 <= i < list.len() ==> (#[trigger] list[i]).block == Some(idx),
        distinct(hash_texts(list)),
    ensures
        hashes_at(saved_all(store, list).0, tx_key(decimal_text(idx as nat))) == Lookup::Found(
            hash_texts(list),
        ),
        forall|i: int|
            0 <= i < list.len() ==> tx_at(
                saved_all(store, list).0,
                tx_key((#[trigger] list[i]).hash_text()),
            ) == Lookup::Found(list[i]),
        txs_under(saved_all(store, list).0, decimal_text(idx as nat)) == Some(list),
    decreases list.len(),
{
    let after = saved_all(store, list).0;
    if list.len() > 0 {
        let front = list.drop_last();
        let last = list.last();
        let before = saved_all(store, front).0;
        assert forall|i: int| 0 <= i < front.len() implies (#[trigger] front[i]).block == Some(
            idx,
        ) by {
            assert(front[i] == list[i]);
        }
        assert forall|i: int, j: int| 0 <= i < j < hash_texts(front).len() implies #[trigger] hash_texts(
            front,
        )[i] != #[trigger] hash_texts(front)[j] by {
            assert(hash_texts(list)[i] != hash_texts(list)[j]);
        }
        saved_block_transactions_are_filed(store, front, idx);
        assert(last == list[list.len() - 1]);
        assert(last.block == Some(idx));
        save_files_under_block(before, last, last.hash_text());
        if hash_texts(front).contains(last.hash_text()) {
            let k = choose|k: int|
                0 <= k < hash_texts(front).len() && hash_texts(front)[k] == last.hash_text();
            assert(hash_texts(list)[k] != hash_texts(list)[list.len() - 1]);
        }
        assert(hash_texts(front).push(last.hash_text()) =~= hash_texts(list));
        assert forall|i: int| 0 <= i < list.len() implies tx_at(
            after,
            tx_key((#[trigger] list[i]).hash_text()),
        ) == Lookup::Found(list[i]) by {
            if i < front.len() {
                assert(front[i] == list[i]);
                assert(hash_texts(list)[i] != hash_texts(list)[list.len() - 1]);
                save_files_under_block(before, last, list[i].hash_text());
            }
        }
        let hashes = hash_texts(list);
        assert forall|i: int| 0 <= i < hashes.len() implies tx_at(after, tx_key(#[trigger] hashes[i]))
            is Found by {
            assert(tx_at(after, tx_key(list[i].hash_text())) == Lookup::Found(list[i]));
        }
        txs_of_exact(after, hashes);
        let filed = txs_of(after, hashes).unwrap();
        assert forall|i: int| 0 <= i < filed.len() implies filed[i] == list[i] by {
            assert(tx_at(after, tx_key(hashes[i])) == Lookup::Found(filed[i]));
            assert(tx_at(after, tx_key(list[i].hash_text())) == Lookup::Found(list[i]));
        }
        assert(filed =~= list);
    } else {
        assert(hash_texts(list) =~= Seq::<Seq<char>>::empty());
        assert(list =~= Seq::<TxView>::empty());
    }
}

/// The store after each of a list of transactions was saved in turn, and
/// whether all were; the first that cannot be saved stops the work.
pub open spec fn saved_all(store: Store, list: Seq<TxView>) -> (Store, bool)
    decreases list.len(),
{
    if list.len() == 0 {
        (store, true)
    } else {
        let front = saved_all(store, list.drop_last());
        if front.1 {
            saved(front.0, list.last())
        } else {
            front
        }
    }
}

} // verus!
