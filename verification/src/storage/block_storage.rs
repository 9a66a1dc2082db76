//! Blocks by index and by hash, and the index of the latest block.

use crate::block::Block;
use crate::block::BlockView;
use crate::codec::decimal_text;
use crate::codec::decimal_text_is_numeral;
use crate::codec::decimal_text_is_short;
use crate::codec::hex_text_is_hex;
use crate::codec::is_decimal_digit;
use crate::codec::prefix_cancels;
use crate::codec::prefixed;
use crate::codec::u64_to_string;
use crate::error::Error;
use crate::error::ErrorKind;
use crate::storage::kv::block_at;
use crate::storage::kv::number_at;
use crate::storage::kv::wrong_record;
use crate::storage::kv::KvStore;
use crate::storage::kv::Lookup;
use crate::storage::kv::Record;
use crate::storage::kv::RecordView;
use vstd::prelude::*;

verus! {

/// A key of the block index.
pub open spec fn block_key(name: Seq<char>) -> Seq<char> {
    "block."@ + name
}

/// The key under which the block of an index is kept.
pub open spec fn index_key(idx: u64) -> Seq<char> {
    block_key(decimal_text(idx as nat))
}

/// The key under which the index of the latest block is kept.
pub open spec fn latest_key() -> Seq<char> {
    block_key("latest"@)
}

/// Whether a block can be saved: the key of the latest index holds an index
/// or nothing.
pub open spec fn can_save(store: Map<Seq<char>, RecordView>) -> bool {
    !(number_at(store, latest_key()) is Wrong)
}

/// The latest index once a block of a given index was saved: the larger of
/// that index and the latest before.
pub open spec fn latest_after(store: Map<Seq<char>, RecordView>, idx: u64) -> u64 {
    match number_at(store, latest_key()) {
        Lookup::Found(latest) => if latest > idx {
            latest
        } else {
            idx
        },
        _ => idx,
    }
}

/// The store after a block was saved: the block, without its transactions,
/// under its index; its index under its hash; and, as the latest index, the
/// highest index saved so far.
pub open spec fn with_block(store: Map<Seq<char>, RecordView>, block: BlockView) -> Map<
    Seq<char>,
    RecordView,
> {
    store.insert(index_key(block.idx), RecordView::Block(block.stripped())).insert(
        block_key(block.hash_text()),
        RecordView::Number(block.idx),
    ).insert(latest_key(), RecordView::Number(latest_after(store, block.idx)))
}

/// The block a store holds for an index.
pub open spec fn block_by_idx(store: Map<Seq<char>, RecordView>, idx: u64) -> Lookup<BlockView> {
    block_at(store, index_key(idx))
}

/// The block an index recorded under `key` points to.
pub open spec fn block_behind(store: Map<Seq<char>, RecordView>, key: Seq<char>) -> Lookup<
    BlockView,
> {
    match number_at(store, key) {
        Lookup::Found(idx) => block_by_idx(store, idx),
        Lookup::Missing => Lookup::Missing,
        Lookup::Wrong => Lookup::Wrong,
    }
}

/// The block a store holds for a hash.
pub open spec fn block_by_hash(store: Map<Seq<char>, RecordView>, hash: Seq<char>) -> Lookup<
    BlockView,
> {
    block_behind(store, block_key(hash))
}

/// The latest block of a store.
pub open spec fn latest_block(store: Map<Seq<char>, RecordView>) -> Lookup<BlockView> {
    block_behind(store, latest_key())
}

/// No index key is the key of the latest index or the key of a hash, and no
/// hash key is the key of the latest index; two index keys are the same only
/// for the same index.
pub proof fn block_keys_differ(idx: u64, other: u64, block: BlockView)
    ensures
        index_key(idx) != latest_key(),
        index_key(idx) != block_key(block.hash_text()),
        block_key(block.hash_text()) != latest_key(),
        index_key(idx) == index_key(other) ==> idx == other,
{
    reveal_strlit("latest");
    let numeral = decimal_text(idx as nat);
    decimal_text_is_numeral(idx as nat);
    decimal_text_is_numeral(other as nat);
    decimal_text_is_short(idx as nat);
    hex_text_is_hex(block.digest());
    assert(is_decimal_digit(numeral[0]));
    if index_key(idx) == latest_key() {
        prefix_cancels("block."@, numeral, "latest"@);
    }
    if index_key(idx) == block_key(block.hash_text()) {
        prefix_cancels("block."@, numeral, block.hash_text());
    }
    if block_key(block.hash_text()) == latest_key() {
        prefix_cancels("block."@, block.hash_text(), "latest"@);
        assert("latest"@[0] == 'l');
    }
    if index_key(idx) == index_key(other) {
        prefix_cancels("block."@, numeral, decimal_text(other as nat));
    }
}

/// A block that was saved is found again under its index and under its
/// hash, in each case without its transactions and with the hash it was
/// saved with. It is the latest block unless a higher index was saved
/// before; then the latest block stays the one it was.
pub proof fn saved_block_is_found(store: Map<Seq<char>, RecordView>, block: BlockView)
    ensures
        block_by_idx(with_block(store, block), block.idx) == Lookup::Found(block.stripped()),
        block_by_hash(with_block(store, block), block.hash_text()) == Lookup::Found(
            block.stripped(),
        ),
        number_at(with_block(store, block), latest_key()) == Lookup::Found(
            latest_after(store, block.idx),
        ),
        latest_after(store, block.idx) >= block.idx,
        number_at(store, latest_key()) is Found ==> latest_after(store, block.idx) >= number_at(
            store,
            latest_key(),
        )->Found_0,
        latest_after(store, block.idx) == block.idx ==> latest_block(with_block(store, block))
            == Lookup::Found(block.stripped()),
        latest_after(store, block.idx) != block.idx ==> latest_block(with_block(store, block))
            == latest_block(store),
        block.stripped().hash_text() == block.hash_text(),
{
    block_keys_differ(block.idx, block.idx, block);
    block_keys_differ(latest_after(store, block.idx), block.idx, block);
}

/// Saving a block leaves the blocks of all other indexes as they were.
pub proof fn saved_block_keeps_others(
    store: Map<Seq<char>, RecordView>,
    block: BlockView,
    idx: u64,
)
    requires
        idx != block.idx,
    ensures
        block_by_idx(with_block(store, block), idx) == block_by_idx(store, idx),
{
    block_keys_differ(idx, block.idx, block);
}

/// Whether every block of a store is kept under its own index.
pub open spec fn indexed(store: Map<Seq<char>, RecordView>) -> bool {
    forall|idx: u64|
        match #[trigger] block_by_idx(store, idx) {
            Lookup::Found(block) => block.idx == idx,
            _ => true,
        }
}

/// Whether the block of an index, if it is not block zero, names as its
/// parent the hash of the block kept under the index before.
pub open spec fn linked(store: Map<Seq<char>, RecordView>, idx: u64) -> bool {
    match block_by_idx(store, idx) {
        Lookup::Found(block) => idx == 0 || match block_by_idx(store, (idx - 1) as u64) {
            Lookup::Found(parent) => block.parent_hash == parent.hash_text(),
            _ => false,
        },
        _ => true,
    }
}

/// Whether a store holds a chain: every block is kept under its own index,
/// the latest block is the last, and every block after block zero names as
/// its parent the hash of the block before it.
pub open spec fn chained(store: Map<Seq<char>, RecordView>) -> bool {
    &&& indexed(store)
    &&& match latest_block(store) {
        Lookup::Found(latest) => forall|idx: u64|
            #![trigger block_by_idx(store, idx)]
            linked(store, idx) && (idx > latest.idx ==> block_by_idx(store, idx) is Missing),
        _ => false,
    }
}

/// Saving a block keeps every block under its own index.
pub proof fn saved_block_keeps_indexed(store: Map<Seq<char>, RecordView>, block: BlockView)
    requires
        indexed(store),
    ensures
        indexed(with_block(store, block)),
{
    assert forall|idx: u64|
        match #[trigger] block_by_idx(with_block(store, block), idx) {
            Lookup::Found(found) => found.idx == idx,
            _ => true,
        } by {
        block_keys_differ(idx, block.idx, block);
        if idx != block.idx {
            assert(block_by_idx(with_block(store, block), idx) == block_by_idx(store, idx));
        }
    }
}

/// A block saved on top of a chain, with the index after the latest and the
/// latest block's hash as its parent, makes the chain one block longer.
pub proof fn saved_block_extends_chain(store: Map<Seq<char>, RecordView>, block: BlockView)
    requires
        chained(store),
        latest_block(store)->Found_0.idx + 1 == block.idx,
        block.parent_hash == latest_block(store)->Found_0.hash_text(),
    ensures
        chained(with_block(store, block)),
        latest_block(with_block(store, block)) == Lookup::Found(block.stripped()),
        block_by_idx(with_block(store, block), (block.idx - 1) as u64) == latest_block(store),
{
    let latest = latest_block(store)->Found_0;
    let after = with_block(store, block);
    saved_block_keeps_indexed(store, block);
    saved_block_is_found(store, block);
    let held = number_at(store, latest_key())->Found_0;
    assert(block_by_idx(store, held) == Lookup::Found(latest));
    assert(latest.idx == held);
    saved_block_keeps_others(store, block, latest.idx);
    assert forall|idx: u64|
        #![trigger block_by_idx(after, idx)]
        linked(after, idx) && (idx > block.idx ==> block_by_idx(after, idx) is Missing) by {
        if idx != block.idx {
            saved_block_keeps_others(store, block, idx);
            assert(linked(store, idx));
            if idx > 0 && idx - 1 != block.idx {
                saved_block_keeps_others(store, block, (idx - 1) as u64);
            }
            if idx > 0 && idx - 1 == block.idx {
                assert(block_by_idx(store, idx) is Missing);
            }
        }
    }
}

/// The first block saved to a store without blocks makes a chain.
pub proof fn first_block_starts_chain(store: Map<Seq<char>, RecordView>, block: BlockView)
    requires
        forall|idx: u64| #[trigger] block_by_idx(store, idx) is Missing,
        number_at(store, latest_key()) is Missing,
        block.idx == 0,
    ensures
        chained(with_block(store, block)),
{
    let after = with_block(store, block);
    saved_block_is_found(store, block);
    assert forall|idx: u64|
        #![trigger block_by_idx(after, idx)]
        linked(after, idx) && (idx > 0 ==> block_by_idx(after, idx) is Missing) && match block_by_idx(
            after,
            idx,
        ) {
            Lookup::Found(found) => found.idx == idx,
            _ => true,
        } by {
        assert(block_by_idx(store, idx) is Missing);
        if idx != 0 {
            saved_block_keeps_others(store, block, idx);
        }
    }
}

/// Whether the latest index of a store is the highest index under which it
/// holds a block; a store without a latest index holds no block.
pub open spec fn latest_is_highest(store: Map<Seq<char>, RecordView>) -> bool {
    match number_at(store, latest_key()) {
        Lookup::Found(latest) => block_by_idx(store, latest) is Found && forall|idx: u64|
            #[trigger] block_by_idx(store, idx) is Found ==> idx <= latest,
        Lookup::Missing => forall|idx: u64| !(#[trigger] block_by_idx(store, idx) is Found),
        Lookup::Wrong => false,
    }
}

/// Saving a block keeps the latest index the highest index saved: a block
/// saved below it leaves it, a block saved above it becomes the latest.
pub proof fn saved_block_keeps_latest_highest(store: Map<Seq<char>, RecordView>, block: BlockView)
    requires
        latest_is_highest(store),
    ensures
        latest_is_highest(with_block(store, block)),
        number_at(with_block(store, block), latest_key()) == Lookup::Found(
            latest_after(store, block.idx),
        ),
{
    let after = with_block(store, block);
    let latest = latest_after(store, block.idx);
    saved_block_is_found(store, block);
    if latest != block.idx {
        saved_block_keeps_others(store, block, latest);
    }
    assert forall|idx: u64| #[trigger] block_by_idx(after, idx) is Found implies idx <= latest by {
        if idx != block.idx {
            saved_block_keeps_others(store, block, idx);
        }
    }
}

/// The blocks, kept in a key-value store.
pub struct BlockStorage {
    db: KvStore,
}

impl View for BlockStorage {
    type V = Map<Seq<char>, RecordView>;

    closed spec fn view(&self) -> Map<Seq<char>, RecordView> {
        self.db@
    }
}

impl BlockStorage {
    /// The blocks held in a store.
    pub fn new(db: KvStore) -> (storage: BlockStorage)
        ensures
            storage@ == db@,
    {
        BlockStorage { db }
    }

    /// The store behind the blocks.
    pub fn db(&self) -> (db: &KvStore)
        ensures
            db@ == self@,
    {
        &self.db
    }

    /// Saves a block without its transactions, records its index under its
    /// hash, and keeps as the latest index the highest index saved so far. It
    /// fails, with `Storage`, exactly where the key of the latest index holds
    /// something other than an index, and then writes nothing.
    pub fn save(&mut self, block: &Block) -> (result: Result<(), Error>)
        ensures
            indexed(old(self)@) ==> indexed(final(self)@),
            latest_is_highest(old(self)@) ==> latest_is_highest(final(self)@),
            result.is_ok() == can_save(old(self)@),
            result.is_ok() ==> final(self)@ == with_block(old(self)@, block@),
            result.is_err() ==> final(self)@ == old(self)@ && result.unwrap_err().is(
                ErrorKind::Storage,
                "Unexpected record"@,
            ),
    {
        proof {
            if indexed(self@) {
                saved_block_keeps_indexed(self@, block@);
            }
            if latest_is_highest(self@) {
                saved_block_keeps_latest_highest(self@, block@);
            }
        }
        let latest_key = self.build_key("latest");
        let latest = match self.db.get(&latest_key) {
            Some(Record::Number(latest)) => if *latest > block.idx {
                *latest
            } else {
                block.idx
            },
            Some(_) => { return Err(wrong_record()); },
            None => block.idx,
        };
        let stripped = Block {
            idx: block.idx,
            timestamp: block.timestamp,
            validator: block.validator.clone(),
            parent_hash: block.parent_hash.clone(),
            merkle_root: block.merkle_root.clone(),
            txs: None,
            signature: block.signature.clone(),
        };
        assert(stripped@ == block@.stripped());
        let index = u64_to_string(block.idx);
        let key = self.build_key(index.as_str());
        self.db.put(key, Record::Block(stripped));
        let hash = block.hash_str();
        let key = self.build_key(hash.as_str());
        self.db.put(key, Record::Number(block.idx));
        self.db.put(latest_key, Record::Number(latest));
        Ok(())
    }

    /// The block of an index, if one was saved. It fails, with `Storage`,
    /// exactly where the index's key holds something other than a block.
    pub fn find_by_idx(&self, idx: u64) -> (result: Result<Option<Block>, Error>)
        ensures
            match block_by_idx(self@, idx) {
                Lookup::Found(block) => result.is_ok() && result.unwrap().is_some()
                    && result.unwrap().unwrap()@ == block,
                Lookup::Missing => result.is_ok() && result.unwrap().is_none(),
                Lookup::Wrong => result.is_err() && result.unwrap_err().is(
                    ErrorKind::Storage,
                    "Unexpected record"@,
                ),
            },
    {
        let index = u64_to_string(idx);
        let key = self.build_key(index.as_str());
        match self.db.get(&key) {
            Some(Record::Block(block)) => Ok(Some(block.clone())),
            Some(_) => Err(wrong_record()),
            None => Ok(None),
        }
    }

    /// The block an index recorded under `key` points to.
    fn find_behind(&self, key: &String) -> (result: Result<Option<Block>, Error>)
        ensures
            match block_behind(self@, key@) {
                Lookup::Found(block) => result.is_ok() && result.unwrap().is_some()
                    && result.unwrap().unwrap()@ == block,
                Lookup::Missing => result.is_ok() && result.unwrap().is_none(),
                Lookup::Wrong => result.is_err() && result.unwrap_err().is(
                    ErrorKind::Storage,
                    "Unexpected record"@,
                ),
            },
    {
        match self.db.get(key) {
            Some(Record::Number(idx)) => self.find_by_idx(*idx),
            Some(_) => Err(wrong_record()),
            None => Ok(None),
        }
    }

    /// The block of a hash, if one was saved. It fails, with `Storage`,
    /// exactly where the hash's key holds something other than an index, or
    /// the index's key something other than a block.
    pub fn find_by_hash(&self, hash: String) -> (result: Result<Option<Block>, Error>)
        ensures
            match block_by_hash(self@, hash@) {
                Lookup::Found(block) => result.is_ok() && result.unwrap().is_some()
                    && result.unwrap().unwrap()@ == block,
                Lookup::Missing => result.is_ok() && result.unwrap().is_none(),
                Lookup::Wrong => result.is_err() && result.unwrap_err().is(
                    ErrorKind::Storage,
                    "Unexpected record"@,
                ),
            },
    {
        let key = self.build_key(hash.as_str());
        self.find_behind(&key)
    }

    /// The latest block. It fails with `NotFound` exactly where no block was
    /// saved yet or the latest index points to none, and with `Storage`
    /// exactly where a key on the way holds a record of the wrong kind.
    pub fn find_latest(&self) -> (result: Result<Block, Error>)
        ensures
            match latest_block(self@) {
                Lookup::Found(block) => result.is_ok() && result.unwrap()@ == block,
                Lookup::Missing => result.is_err() && result.unwrap_err().is(
                    ErrorKind::NotFound,
                    "Block block not found"@,
                ),
                Lookup::Wrong => result.is_err() && result.unwrap_err().is(
                    ErrorKind::Storage,
                    "Unexpected record"@,
                ),
            },
    {
        let key = self.build_key("latest");
        match self.find_behind(&key) {
            Ok(Some(block)) => Ok(block),
            Ok(None) => Err(Error::new(ErrorKind::NotFound, "Block block not found")),
            Err(e) => Err(e),
        }
    }

    /// The key of a name in the block index.
    fn build_key(&self, value: &str) -> (key: String)
        ensures
            key@ == block_key(value@),
    {
        prefixed("block.", value)
    }
}

} // verus!
