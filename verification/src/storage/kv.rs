//! A key-value store: text keys, each holding one record. The ledger's
//! indexes read and write it one key at a time.

use crate::block::Block;
use crate::block::BlockView;
use crate::codec::clone_texts;
use crate::codec::texts_view;
use crate::error::Error;
use crate::error::ErrorKind;
use crate::tx::Tx;
use crate::tx::TxView;
use vstd::prelude::*;

verus! {

/// What a key can hold.
#[derive(Debug, PartialEq, Eq)]
pub enum Record {
    /// A transaction.
    Tx(Tx),
    /// A set of transaction hashes.
    Hashes(Vec<String>),
    /// A block without its transactions.
    Block(Block),
    /// A number: a nonce or a block index.
    Number(u64),
}

/// A record as plain values.
pub enum RecordView {
    Tx(TxView),
    Hashes(Seq<Seq<char>>),
    Block(BlockView),
    Number(u64),
}

impl View for Record {
    type V = RecordView;

    open spec fn view(&self) -> RecordView {
        match self {
            Record::Tx(tx) => RecordView::Tx(tx@),
            Record::Hashes(hashes) => RecordView::Hashes(texts_view(hashes@)),
            Record::Block(block) => RecordView::Block(block@),
            Record::Number(n) => RecordView::Number(*n),
        }
    }
}

impl Clone for Record {
    fn clone(&self) -> (record: Record)
        ensures
            record@ == self@,
    {
        match self {
            Record::Tx(tx) => Record::Tx(tx.clone()),
            Record::Hashes(hashes) => Record::Hashes(clone_texts(hashes)),
            Record::Block(block) => Record::Block(block.clone()),
            Record::Number(n) => Record::Number(*n),
        }
    }
}

/// What reading a key as one kind of record gives.
pub enum Lookup<T> {
    /// The key holds nothing.
    Missing,
    /// The key holds a record of the kind asked for.
    Found(T),
    /// The key holds a record of another kind.
    Wrong,
}

/// Reading a key as a number.
pub open spec fn number_at(store: Map<Seq<char>, RecordView>, key: Seq<char>) -> Lookup<u64> {
    if !store.dom().contains(key) {
        Lookup::Missing
    } else {
        match store[key] {
            RecordView::Number(n) => Lookup::Found(n),
            _ => Lookup::Wrong,
        }
    }
}

/// Reading a key as a block.
pub open spec fn block_at(store: Map<Seq<char>, RecordView>, key: Seq<char>) -> Lookup<BlockView> {
    if !store.dom().contains(key) {
        Lookup::Missing
    } else {
        match store[key] {
            RecordView::Block(block) => Lookup::Found(block),
            _ => Lookup::Wrong,
        }
    }
}

/// Reading a key as a transaction.
pub open spec fn tx_at(store: Map<Seq<char>, RecordView>, key: Seq<char>) -> Lookup<TxView> {
    if !store.dom().contains(key) {
        Lookup::Missing
    } else {
        match store[key] {
            RecordView::Tx(tx) => Lookup::Found(tx),
            _ => Lookup::Wrong,
        }
    }
}

/// Reading a key as a set of hashes. A key that holds nothing stands for the
/// empty set.
pub open spec fn hashes_at(store: Map<Seq<char>, RecordView>, key: Seq<char>) -> Lookup<
    Seq<Seq<char>>,
> {
    if !store.dom().contains(key) {
        Lookup::Found(Seq::empty())
    } else {
        match store[key] {
            RecordView::Hashes(hashes) => Lookup::Found(hashes),
            _ => Lookup::Wrong,
        }
    }
}

/// The error for a key that holds a record of another kind than was asked
/// for.
pub fn wrong_record() -> (error: Error)
    ensures
        error.is(ErrorKind::Storage, "Unexpected record"@),
{
    Error::new(ErrorKind::Storage, "Unexpected record")
}

/// The store: a finite map from keys to records.
pub struct KvStore {
    entries: Vec<(String, Record)>,
}

/// The map that a list of entries stands for: each key holds the record of
/// its last entry.
spec fn entries_map(entries: Seq<(String, Record)>) -> Map<Seq<char>, RecordView>
    decreases entries.len(),
{
    if entries.len() == 0 {
        Map::empty()
    } else {
        entries_map(entries.drop_last()).insert(entries.last().0@, entries.last().1@)
    }
}

/// The key of the entry at a position.
spec fn key_at(entries: Seq<(String, Record)>, i: int) -> Seq<char> {
    entries[i].0@
}

/// Whether no entry after position `i` has the key.
spec fn last_of_key(entries: Seq<(String, Record)>, i: int, key: Seq<char>) -> bool {
    forall|j: int| i < j < entries.len() ==> #[trigger] key_at(entries, j) != key
}

/// A key that no entry has is not in the map.
proof fn entries_map_absent(entries: Seq<(String, Record)>, key: Seq<char>)
    requires
        last_of_key(entries, -1, key),
    ensures
        !entries_map(entries).dom().contains(key),
    decreases entries.len(),
{
    if entries.len() > 0 {
        let front = entries.drop_last();
        assert(key_at(entries, entries.len() - 1) != key);
        assert forall|j: int| -1 < j < front.len() implies #[trigger] key_at(front, j) != key by {
            assert(key_at(entries, j) != key);
        }
        entries_map_absent(front, key);
    }
}

/// The map holds, under a key, the record of the key's last entry.
proof fn entries_map_present(entries: Seq<(String, Record)>, i: int, key: Seq<char>)
    requires
        0 <= i < entries.len(),
        key_at(entries, i) == key,
        last_of_key(entries, i, key),
    ensures
        entries_map(entries).dom().contains(key),
        entries_map(entries)[key] == entries[i].1@,
    decreases entries.len(),
{
    let last = entries.len() - 1;
    if i < last {
        let front = entries.drop_last();
        assert(key_at(entries, last) != key);
        assert(key_at(front, i) == key);
        assert forall|j: int| i < j < front.len() implies #[trigger] key_at(front, j) != key by {
            assert(key_at(entries, j) != key);
        }
        entries_map_present(front, i, key);
    }
}

/// A key in the map is the key of some entry.
proof fn entries_map_witness(entries: Seq<(String, Record)>, key: Seq<char>) -> (i: int)
    requires
        entries_map(entries).dom().contains(key),
    ensures
        0 <= i < entries.len(),
        key_at(entries, i) == key,
    decreases entries.len(),
{
    if entries.last().0@ == key {
        entries.len() - 1
    } else {
        entries_map_witness(entries.drop_last(), key)
    }
}

/// A key that the map lacks is the key of no entry.
proof fn entries_map_unheld(entries: Seq<(String, Record)>, key: Seq<char>, i: int)
    requires
        !entries_map(entries).dom().contains(key),
        0 <= i < entries.len(),
    ensures
        key_at(entries, i) != key,
    decreases entries.len(),
{
    if i < entries.len() - 1 {
        entries_map_unheld(entries.drop_last(), key, i);
    }
}

/// Replacing the last entry of a key is putting the new record under it.
proof fn entries_map_replace(entries: Seq<(String, Record)>, i: int, entry: (String, Record))
    requires
        0 <= i < entries.len(),
        key_at(entries, i) == entry.0@,
        last_of_key(entries, i, entry.0@),
    ensures
        entries_map(entries.update(i, entry)) == entries_map(entries).insert(entry.0@, entry.1@),
    decreases entries.len(),
{
    let last = entries.len() - 1;
    let front = entries.drop_last();
    let updated = entries.update(i, entry);
    if i == last {
        assert(updated.drop_last() =~= front);
        assert(entries_map(updated) =~= entries_map(entries).insert(entry.0@, entry.1@));
    } else {
        assert(updated.drop_last() =~= front.update(i, entry));
        assert(key_at(front, i) == entry.0@);
        assert forall|j: int| i < j < front.len() implies #[trigger] key_at(front, j)
            != entry.0@ by {
            assert(key_at(entries, j) != entry.0@);
        }
        entries_map_replace(front, i, entry);
        assert(key_at(entries, last) != entry.0@);
        assert(updated.last() == entries.last());
        assert(entries_map(updated) =~= entries_map(entries).insert(entry.0@, entry.1@));
    }
}

impl View for KvStore {
    type V = Map<Seq<char>, RecordView>;

    closed spec fn view(&self) -> Map<Seq<char>, RecordView> {
        entries_map(self.entries@)
    }
}

impl KvStore {
    /// An empty store.
    pub fn new() -> (store: KvStore)
        ensures
            store@ == Map::<Seq<char>, RecordView>::empty(),
    {
        KvStore { entries: Vec::new() }
    }

    /// The position of the last entry of a key, if there is one.
    fn position(&self, key: &String) -> (found: Option<usize>)
        ensures
            match found {
                Some(i) => i < self.entries.len() && key_at(self.entries@, i as int) == key@
                    && last_of_key(self.entries@, i as int, key@),
                None => last_of_key(self.entries@, -1, key@),
            },
    {
        let mut i: usize = self.entries.len();
        while i > 0
            invariant
                i <= self.entries.len(),
                last_of_key(self.entries@, i - 1, key@),
            decreases i,
        {
            i = i - 1;
            if self.entries[i].0 == *key {
                return Some(i);
            }
        }
        None
    }

    /// The record under a key, if there is one.
    pub fn get(&self, key: &String) -> (found: Option<&Record>)
        ensures
            match found {
                Some(record) => self@.dom().contains(key@) && self@[key@] == record@,
                None => !self@.dom().contains(key@),
            },
    {
        match self.position(key) {
            Some(i) => {
                proof {
                    entries_map_present(self.entries@, i as int, key@);
                }
                Some(&self.entries[i].1)
            },
            None => {
                proof {
                    entries_map_absent(self.entries@, key@);
                }
                None
            },
        }
    }

    /// Puts a record under a key, in place of what the key held before.
    pub fn put(&mut self, key: String, value: Record)
        ensures
            final(self)@ == old(self)@.insert(key@, value@),
    {
        match self.position(&key) {
            Some(i) => {
                proof {
                    entries_map_replace(self.entries@, i as int, (key, value));
                }
                self.entries.set(i, (key, value));
            },
            None => {
                self.entries.push((key, value));
                assert(self.entries@.drop_last() =~= old(self).entries@);
            },
        }
    }

    /// The keys the store holds.
    pub fn keys(&self) -> (keys: Vec<String>)
        ensures
            forall|k: Seq<char>|
                self@.dom().contains(k) ==> exists|i: int|
                    0 <= i < keys.len() && #[trigger] keys[i]@ == k,
            forall|i: int| 0 <= i < keys.len() ==> self@.dom().contains(#[trigger] keys[i]@),
    {
        let mut keys: Vec<String> = Vec::new();
        let mut i: usize = 0;
        while i < self.entries.len()
            invariant
                i <= self.entries.len(),
                keys.len() == i,
                forall|j: int| 0 <= j < i ==> (#[trigger] keys[j])@ == key_at(self.entries@, j),
            decreases self.entries.len() - i,
        {
            keys.push(self.entries[i].0.clone());
            i = i + 1;
        }
        proof {
            assert forall|k: Seq<char>| self@.dom().contains(k) implies exists|i: int|
                0 <= i < keys.len() && #[trigger] keys[i]@ == k by {
                let i = entries_map_witness(self.entries@, k);
                assert(keys[i]@ == k);
            }
            assert forall|i: int| 0 <= i < keys.len() implies self@.dom().contains(
                #[trigger] keys[i]@,
            ) by {
                let k = keys[i]@;
                if !self@.dom().contains(k) {
                    entries_map_unheld(self.entries@, k, i);
                }
            }
        }
        keys
    }
}

} // verus!
