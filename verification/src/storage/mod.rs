//! The key-value store and the three indexes the ledger keeps in it.

pub mod block_storage;
pub mod kv;
pub mod nonce_storage;
pub mod tx_storage;
