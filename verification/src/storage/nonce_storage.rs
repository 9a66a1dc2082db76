//! The last accepted nonce of each wallet.

use crate::codec::prefixed;
use crate::error::Error;
use crate::error::ErrorKind;
use crate::storage::kv::number_at;
use crate::storage::kv::wrong_record;
use crate::storage::kv::KvStore;
use crate::storage::kv::Lookup;
use crate::storage::kv::Record;
use crate::storage::kv::RecordView;
use vstd::prelude::*;

verus! {

/// The key under which a wallet's nonce is kept.
pub open spec fn nonce_key(wallet: Seq<char>) -> Seq<char> {
    "nonce."@ + wallet
}

/// The nonce a store holds for a wallet: zero where it holds none.
pub open spec fn nonce_of(store: Map<Seq<char>, RecordView>, wallet: Seq<char>) -> Lookup<u64> {
    match number_at(store, nonce_key(wallet)) {
        Lookup::Missing => Lookup::Found(0),
        other => other,
    }
}

/// The nonces, kept in a key-value store.
pub struct NonceStorage {
    db: KvStore,
}

impl View for NonceStorage {
    type V = Map<Seq<char>, RecordView>;

    closed spec fn view(&self) -> Map<Seq<char>, RecordView> {
        self.db@
    }
}

impl NonceStorage {
    /// The nonces held in a store.
    pub fn new(db: KvStore) -> (storage: NonceStorage)
        ensures
            storage@ == db@,
    {
        NonceStorage { db }
    }

    /// The store behind the nonces.
    pub fn db(&self) -> (db: &KvStore)
        ensures
            db@ == self@,
    {
        &self.db
    }

    /// Sets a wallet's nonce, whatever it was. It always succeeds.
    pub fn save(&mut self, wallet: String, nonce: u64) -> (result: Result<(), Error>)
        ensures
            result.is_ok(),
            final(self)@ == old(self)@.insert(nonce_key(wallet@), RecordView::Number(nonce)),
    {
        let key = self.build_key(wallet.as_str());
        self.db.put(key, Record::Number(nonce));
        Ok(())
    }

    /// A wallet's nonce: zero where none was saved. It fails, with `Storage`,
    /// exactly where the wallet's key holds something other than a number.
    pub fn get(&self, wallet: String) -> (result: Result<u64, Error>)
        ensures
            match nonce_of(self@, wallet@) {
                Lookup::Found(nonce) => result == Ok::<u64, Error>(nonce),
                _ => result.is_err() && result.unwrap_err().is(
                    ErrorKind::Storage,
                    "Unexpected record"@,
                ),
            },
    {
        let key = self.build_key(wallet.as_str());
        match self.db.get(&key) {
            Some(Record::Number(nonce)) => Ok(*nonce),
            Some(_) => Err(wrong_record()),
            None => Ok(0),
        }
    }

    /// The key of a wallet in the nonce index.
    fn build_key(&self, value: &str) -> (key: String)
        ensures
            key@ == nonce_key(value@),
    {
        prefixed("nonce.", value)
    }
}

} // verus!
