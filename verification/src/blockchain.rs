//! The ledger: balances, nonces and stakes derived from the transactions
//! that were admitted, and the rules by which transactions and blocks are
//! admitted and blocks are produced.

use crate::block::Block;
use crate::block::BlockView;
use crate::block::clone_txs;
use crate::block::genesis_block;
use crate::block::signed_block;
use crate::block::txs_view;
use crate::codec::decimal_text;
use crate::codec::hex_text_is_hex;
use crate::codec::is_text;
use crate::codec::prefix_cancels;
use crate::codec::texts_view;
use crate::codec::u64_to_string;
use crate::crypto::hash_to_int;
use crate::crypto::public_key_of;
use crate::crypto::unix_time;
use crate::election::collect_senders;
use crate::election::elect;
use crate::election::elected;
use crate::election::seed_of;
use crate::election::stake_list;
use crate::election::stake_list_fails_on;
use crate::election::stakers;
use crate::election::stakes_of;
use crate::election::stakes_view;
use crate::election::tally_stake;
use crate::election::total_of;
use crate::election::total_stake;
use crate::error::Error;
use crate::error::ErrorKind;
use crate::error::Failure;
use crate::error::unexpected_record;
use crate::error::verdict;
use crate::numeric::decimal_add;
use crate::numeric::decimal_below;
use crate::numeric::decimal_difference;
use crate::numeric::decimal_is_whole;
use crate::numeric::decimal_less;
use crate::numeric::decimal_subtract;
use crate::numeric::decimal_sum;
use crate::numeric::decimal_to_integer;
use crate::numeric::decimal_whole;
use crate::numeric::decimal_whole_part;
use crate::numeric::decimal_zero;
use crate::numeric::integer_add;
use crate::numeric::integer_less;
use crate::numeric::integer_of;
use crate::numeric::integer_subtract;
use crate::numeric::integer_zero;
use crate::numeric::is_amount;
use crate::numeric::is_amount_text;
use crate::numeric::is_decimal;
use crate::numeric::is_integer;
use crate::numeric::prints;
use crate::numeric::zero_is_amount;
use crate::numeric::zero_text;
use crate::stake::Stake;
use crate::stake::StakeView;
use crate::stake::is_stake;
use crate::storage::block_storage::BlockStorage;
use crate::storage::block_storage::block_by_idx;
use crate::storage::block_storage::can_save;
use crate::storage::block_storage::chained;
use crate::storage::block_storage::first_block_starts_chain;
use crate::storage::block_storage::indexed;
use crate::storage::block_storage::latest_block;
use crate::storage::block_storage::latest_is_highest;
use crate::storage::block_storage::latest_key;
use crate::storage::block_storage::saved_block_extends_chain;
use crate::storage::block_storage::saved_block_is_found;
use crate::storage::block_storage::saved_block_keeps_indexed;
use crate::storage::block_storage::saved_block_keeps_latest_highest;
use crate::storage::block_storage::with_block;
use crate::storage::kv::Lookup;
use crate::storage::kv::RecordView;
use crate::storage::kv::hashes_at;
use crate::storage::kv::number_at;
use crate::storage::nonce_storage::NonceStorage;
use crate::storage::nonce_storage::nonce_key;
use crate::storage::nonce_storage::nonce_of;
use crate::storage::tx_storage::NO_BLOCK_IDX;
use crate::storage::tx_storage::Store;
use crate::storage::tx_storage::TxStorage;
use crate::storage::tx_storage::distinct;
use crate::storage::tx_storage::empty_store_is_sound;
use crate::storage::tx_storage::filed_or_unread;
use crate::storage::tx_storage::hash_texts;
use crate::storage::tx_storage::in_block;
use crate::storage::tx_storage::moved;
use crate::storage::tx_storage::moving_all_pending_files_them;
use crate::storage::tx_storage::moving_all_pending_leaves_none;
use crate::storage::tx_storage::ordered;
use crate::storage::tx_storage::save_keeps_sound;
use crate::storage::tx_storage::saved;
use crate::storage::tx_storage::saved_all;
use crate::storage::tx_storage::saved_block_transactions_are_filed;
use crate::storage::tx_storage::sound;
use crate::storage::tx_storage::store_stays_tidy;
use crate::storage::tx_storage::tidy;
use crate::storage::tx_storage::tx_key;
use crate::storage::tx_storage::txs_under;
use crate::storage::tx_storage::update_pending_keeps_sound;
use crate::system::STAKE_WALLET;
use crate::system::UNSTAKE_WALLET;
use crate::tx::Tx;
use crate::tx::TxView;
use crate::wallet::Wallet;
use vstd::prelude::*;

verus! {

/// Whether a transaction adds to a wallet's balance: the wallet receives it,
/// or it takes the amount out of the stake.
pub open spec fn credits(tx: TxView, wallet: Seq<char>) -> bool {
    tx.to == wallet || tx.to == UNSTAKE_WALLET@
}

/// The balance that a wallet's transactions leave, taken in order: the
/// amounts that credit the wallet less all others. There is none where an
/// amount is not a plain numeral.
pub open spec fn balance_of(txs: Seq<TxView>, wallet: Seq<char>) -> Option<Seq<char>>
    decreases txs.len(),
{
    if txs.len() == 0 {
        Some(zero_text())
    } else {
        match balance_of(txs.drop_last(), wallet) {
            None => None,
            Some(balance) => if !is_amount(txs.last().amount) {
                None
            } else if credits(txs.last(), wallet) {
                Some(decimal_sum(balance, txs.last().amount))
            } else {
                Some(decimal_difference(balance, txs.last().amount))
            },
        }
    }
}

/// The failure for a stored amount that is not a plain numeral.
pub open spec fn invalid_amount() -> Failure {
    (ErrorKind::Storage, "Invalid amount"@)
}

/// A wallet's balance over all its transactions, pending or in a block.
pub open spec fn wallet_balance(txs: Store, wallet: Seq<char>) -> Result<Seq<char>, Failure> {
    match txs_under(txs, wallet) {
        None => Err(unexpected_record()),
        Some(found) => match balance_of(ordered(found), wallet) {
            Some(balance) => Ok(balance),
            None => Err(invalid_amount()),
        },
    }
}

/// The stake that a wallet's transactions leave, taken in order: the whole
/// parts of the amounts sent to `STAKE` less those sent to `UNSTAKE`. There
/// is none where one of those amounts is not a plain numeral.
pub open spec fn staked_of(txs: Seq<TxView>) -> Option<int>
    decreases txs.len(),
{
    if txs.len() == 0 {
        Some(0)
    } else {
        match staked_of(txs.drop_last()) {
            None => None,
            Some(stake) => if txs.last().to == STAKE_WALLET@ {
                if is_amount(txs.last().amount) {
                    Some(stake + decimal_whole_part(txs.last().amount))
                } else {
                    None
                }
            } else if txs.last().to == UNSTAKE_WALLET@ {
                if is_amount(txs.last().amount) {
                    Some(stake - decimal_whole_part(txs.last().amount))
                } else {
                    None
                }
            } else {
                Some(stake)
            },
        }
    }
}

/// A wallet's stake, where its transactions can be read and leave at least
/// the minimum.
pub open spec fn stake_of(txs: Store, wallet: Seq<char>) -> Option<StakeView> {
    match txs_under(txs, wallet) {
        None => None,
        Some(found) => match staked_of(ordered(found)) {
            Some(stake) => if is_stake(stake) {
                Some(StakeView { wallet, stake })
            } else {
                None
            },
            None => None,
        },
    }
}

/// The failure for a transaction whose nonce is not the next one.
pub open spec fn invalid_nonce(last: u64) -> Failure {
    if last == u64::MAX {
        (ErrorKind::InvalidInput, "Invalid nonce value, expected: none"@)
    } else {
        (
            ErrorKind::InvalidInput,
            "Invalid nonce value, expected: "@ + decimal_text((last + 1) as nat),
        )
    }
}

/// Whether a transaction may be admitted, and why not. The checks are made
/// in this order: the nonce is the sender's last nonce plus one; the
/// transaction is valid; to take an amount out of the stake, the amount is
/// whole and the sender's stake is not below it; for any other transfer, the
/// sender's balance is not below the amount.
#[verifier::opaque]
pub open spec fn admission(txs: Store, nonces: Store, tx: TxView) -> Result<(), Failure> {
    match nonce_of(nonces, tx.from) {
        Lookup::Found(last) => if last == u64::MAX || last + 1 != tx.nonce {
            Err(invalid_nonce(last))
        } else if !tx.is_valid() {
            Err((ErrorKind::InvalidInput, "Invalid transaction signature"@))
        } else if tx.to == UNSTAKE_WALLET@ {
            if !decimal_is_whole(tx.amount) {
                Err((ErrorKind::InvalidInput, "The value must be an integer"@))
            } else {
                match stake_of(txs, tx.from) {
                    Some(stake) => if stake.stake < decimal_whole_part(tx.amount) {
                        Err((ErrorKind::InvalidInput, "Not enough stake"@))
                    } else {
                        Ok(())
                    },
                    None => Err((ErrorKind::InvalidInput, "Not enough stake"@)),
                }
            }
        } else {
            match wallet_balance(txs, tx.from) {
                Err(failure) => Err(failure),
                Ok(balance) => if decimal_below(balance, tx.amount) {
                    Err((ErrorKind::InvalidInput, "Not enough balance, current: "@ + balance))
                } else {
                    Ok(())
                },
            }
        },
        _ => Err(unexpected_record()),
    }
}

/// The transactions, the nonces and the outcome after `add_tx`. A
/// transaction that is admitted is saved as pending, and its nonce becomes
/// its sender's last; one that is not admitted changes nothing. Where the
/// transaction is admitted but cannot be saved, what saving wrote until it
/// stopped stays, the nonce does not change, and the outcome is a failure of
/// the store.
pub open spec fn added(txs: Store, nonces: Store, tx: TxView) -> (Store, Store, Result<
    (),
    Failure,
>) {
    match admission(txs, nonces, tx) {
        Err(failure) => (txs, nonces, Err(failure)),
        Ok(_) => if saved(txs, tx).1 {
            (
                saved(txs, tx).0,
                nonces.insert(nonce_key(tx.from), RecordView::Number(tx.nonce)),
                Ok(()),
            )
        } else {
            (saved(txs, tx).0, nonces, Err(unexpected_record()))
        },
    }
}

/// The transactions, the blocks and the outcome after `add_block`: the
/// block's transactions are saved, then the block. Where the block cannot
/// be saved, the transactions that were saved stay.
pub open spec fn block_added(txs: Store, blocks: Store, block: BlockView) -> (Store, Store, Result<
    (),
    Failure,
>) {
    let list = match block.txs {
        Some(list) => list,
        None => Seq::empty(),
    };
    if saved_all(txs, list).1 && can_save(blocks) {
        (saved_all(txs, list).0, with_block(blocks, block), Ok(()))
    } else {
        (saved_all(txs, list).0, blocks, Err(unexpected_record()))
    }
}

/// The transactions and the nonces after one transaction of the genesis
/// manifest was saved and its nonce recorded, and whether it was.
pub open spec fn genesis_step(txs: Store, nonces: Store, tx: TxView) -> (Store, Store, bool) {
    if saved(txs, tx).1 {
        (saved(txs, tx).0, nonces.insert(nonce_key(tx.from), RecordView::Number(tx.nonce)), true)
    } else {
        (saved(txs, tx).0, nonces, false)
    }
}

/// The transactions and the nonces after each transaction of the genesis
/// manifest was saved and its nonce recorded, and whether all were.
pub open spec fn genesis_saved(txs: Store, nonces: Store, manifest: Seq<TxView>) -> (
    Store,
    Store,
    bool,
)
    decreases manifest.len(),
{
    if manifest.len() == 0 {
        (txs, nonces, true)
    } else {
        let front = genesis_saved(txs, nonces, manifest.drop_last());
        if front.2 {
            genesis_step(front.0, front.1, manifest.last())
        } else {
            front
        }
    }
}

/// The failure for a genesis manifest without transactions.
pub open spec fn empty_manifest() -> Failure {
    (ErrorKind::InvalidInput, "Genesis manifest is empty"@)
}

/// The ledger and the outcome after `load_genesis`. Where block zero is
/// there, nothing is done. Otherwise the manifest's transactions are saved
/// with their nonces, and the genesis block over them is saved.
pub open spec fn genesis_loaded(txs: Store, blocks: Store, nonces: Store, manifest: Seq<TxView>) -> (
    Store,
    Store,
    Store,
    Result<(), Failure>,
) {
    match block_by_idx(blocks, 0) {
        Lookup::Found(_) => (txs, blocks, nonces, Ok(())),
        Lookup::Wrong => (txs, blocks, nonces, Err(unexpected_record())),
        Lookup::Missing => if manifest.len() == 0 {
            (txs, blocks, nonces, Err(empty_manifest()))
        } else {
            let loaded = genesis_saved(txs, nonces, manifest);
            if loaded.2 && can_save(blocks) {
                (loaded.0, with_block(blocks, genesis_block(manifest)), loaded.1, Ok(()))
            } else {
                (loaded.0, blocks, loaded.1, Err(unexpected_record()))
            }
        },
    }
}

/// A block with its transactions as the ledger knows them: the block of an
/// index joined with the transactions of that index.
pub open spec fn full_block(txs: Store, blocks: Store, idx: u64) -> Result<
    Option<BlockView>,
    Failure,
> {
    match block_by_idx(blocks, idx) {
        Lookup::Found(block) => match txs_under(txs, decimal_text(idx as nat)) {
            Some(list) => Ok(Some(BlockView { txs: Some(list), ..block })),
            None => Err(unexpected_record()),
        },
        Lookup::Missing => Ok(None),
        Lookup::Wrong => Err(unexpected_record()),
    }
}

/// The failure for a slot that belongs to another validator.
pub open spec fn not_elected() -> Failure {
    (ErrorKind::NotElected, "Other validator selected"@)
}

/// The failure where there is no latest block.
pub open spec fn no_latest_block() -> Failure {
    (ErrorKind::NotFound, "Block block not found"@)
}

/// The failure where the latest block has the last index there is.
pub open spec fn index_exhausted() -> Failure {
    (ErrorKind::InvalidInput, "Block index exhausted"@)
}

/// The transactions, the blocks and the outcome after `create_block_at`:
/// the pending transactions become a block on top of the latest, signed by
/// the validator; they are moved into it, and the block is saved.
pub open spec fn created(validator: Wallet, txs: Store, blocks: Store, timestamp: u64) -> (
    Store,
    Store,
    Result<BlockView, Failure>,
) {
    match latest_block(blocks) {
        Lookup::Missing => (txs, blocks, Err(no_latest_block())),
        Lookup::Wrong => (txs, blocks, Err(unexpected_record())),
        Lookup::Found(latest) => if latest.idx == u64::MAX {
            (txs, blocks, Err(index_exhausted()))
        } else {
            match txs_under(txs, NO_BLOCK_IDX@) {
                None => (txs, blocks, Err(unexpected_record())),
                Some(pending) => {
                    let idx = (latest.idx + 1) as u64;
                    let block = signed_block(validator, idx, latest.hash_text(), pending, timestamp);
                    if moved(txs, pending, idx).1 {
                        (moved(txs, pending, idx).0, with_block(blocks, block), Ok(block))
                    } else {
                        (txs, blocks, Err(unexpected_record()))
                    }
                },
            }
        },
    }
}

/// The transactions, the blocks and the outcome of a slot for a given
/// ticket and time: where the ticket elects this node's validator, a block
/// is created; otherwise the slot passes and nothing changes.
pub open spec fn produced(
    validator: Wallet,
    txs: Store,
    blocks: Store,
    ticket: u64,
    timestamp: u64,
) -> (Store, Store, Result<BlockView, Failure>) {
    match latest_block(blocks) {
        Lookup::Missing => (txs, blocks, Err(no_latest_block())),
        Lookup::Wrong => (txs, blocks, Err(unexpected_record())),
        Lookup::Found(_) => match stakes_of(txs) {
            Err(failure) => (txs, blocks, Err(failure)),
            Ok(stakes) => if elected(stakes, total_of(stakes), ticket)
                == validator.address_text() {
                created(validator, txs, blocks, timestamp)
            } else {
                (txs, blocks, Err(not_elected()))
            },
        },
    }
}

/// What a result with a block says: the block, or the failure.
pub open spec fn block_verdict(result: Result<Block, Error>) -> Result<BlockView, Failure> {
    match result {
        Ok(block) => Ok(block@),
        Err(e) => Err(e.failure()),
    }
}

/// The ledger after each transaction of a log was submitted in turn.
pub open spec fn after_log(txs: Store, nonces: Store, log: Seq<TxView>) -> (Store, Store)
    decreases log.len(),
{
    if log.len() == 0 {
        (txs, nonces)
    } else {
        let front = after_log(txs, nonces, log.drop_last());
        (added(front.0, front.1, log.last()).0, added(front.0, front.1, log.last()).1)
    }
}

/// How many transactions of a log, submitted in turn, were admitted from a
/// given wallet.
pub open spec fn admitted_from(txs: Store, nonces: Store, log: Seq<TxView>, wallet: Seq<char>) -> nat
    decreases log.len(),
{
    if log.len() == 0 {
        0
    } else {
        let front = after_log(txs, nonces, log.drop_last());
        let before = admitted_from(txs, nonces, log.drop_last(), wallet);
        if log.last().from == wallet && added(front.0, front.1, log.last()).2.is_ok() {
            before + 1
        } else {
            before
        }
    }
}

/// The ledger of one node: the validator's wallet and the three indexes.
pub struct Blockchain {
    wallet: Wallet,
    tx_storage: TxStorage,
    block_storage: BlockStorage,
    nonce_storage: NonceStorage,
}

impl Blockchain {
    /// The content of the transaction index.
    pub closed spec fn txs(&self) -> Store {
        self.tx_storage@
    }

    /// The content of the block index.
    pub closed spec fn blocks(&self) -> Store {
        self.block_storage@
    }

    /// The content of the nonce index.
    pub closed spec fn nonces(&self) -> Store {
        self.nonce_storage@
    }

    /// The wallet this node validates with.
    pub closed spec fn validator(&self) -> Wallet {
        self.wallet
    }

    /// Whether the ledger is well kept: every transaction is under its own
    /// hash, every hash of every set has its transaction and stands there
    /// once, every block is under its own index, and the latest index is
    /// the highest saved. A ledger that starts without records is well
    /// kept, and every operation keeps it so.
    pub open spec fn well_kept(&self) -> bool {
        kept(self.txs(), self.blocks())
    }

    /// A ledger over the given indexes, validating with the given wallet.
    pub fn new(
        wallet: Wallet,
        tx_storage: TxStorage,
        block_storage: BlockStorage,
        nonce_storage: NonceStorage,
    ) -> (chain: Blockchain)
        ensures
            chain.validator() == wallet,
            chain.txs() == tx_storage@,
            chain.blocks() == block_storage@,
            chain.nonces() == nonce_storage@,
    {
        Blockchain { wallet, tx_storage, block_storage, nonce_storage }
    }

    /// The transaction index.
    pub fn tx_storage(&self) -> (storage: &TxStorage)
        ensures
            storage@ == self.txs(),
    {
        &self.tx_storage
    }

    /// The block index.
    pub fn block_storage(&self) -> (storage: &BlockStorage)
        ensures
            storage@ == self.blocks(),
    {
        &self.block_storage
    }

    /// The nonce index.
    pub fn nonce_storage(&self) -> (storage: &NonceStorage)
        ensures
            storage@ == self.nonces(),
    {
        &self.nonce_storage
    }

    /// The latest block. It fails with `NotFound` exactly where there is
    /// none, and with `Storage` exactly where the block index holds a record
    /// of the wrong kind on the way to it.
    pub fn find_latest(&self) -> (result: Result<Block, Error>)
        ensures
            match latest_block(self.blocks()) {
                Lookup::Found(block) => result.is_ok() && result.unwrap()@ == block,
                Lookup::Missing => result.is_err() && result.unwrap_err().is(
                    ErrorKind::NotFound,
                    "Block block not found"@,
                ),
                Lookup::Wrong => result.is_err() && result.unwrap_err().failure()
                    == unexpected_record(),
            },
    {
        self.block_storage.find_latest()
    }

    /// A wallet's last accepted nonce, zero where none was accepted. It
    /// fails, with `Storage`, exactly where the wallet's key holds something
    /// other than a number.
    pub fn nonce(&self, wallet: String) -> (result: Result<u64, Error>)
        ensures
            match nonce_of(self.nonces(), wallet@) {
                Lookup::Found(nonce) => result == Ok::<u64, Error>(nonce),
                _ => result.is_err() && result.unwrap_err().failure() == unexpected_record(),
            },
    {
        self.nonce_storage.get(wallet)
    }

    /// A wallet's balance over all its transactions, pending or in a block,
    /// as a decimal numeral. It fails, with `Storage`, exactly where the
    /// wallet's transactions cannot be read or one of their amounts is not
    /// a plain numeral.
    pub fn balance(&self, wallet: String) -> (result: Result<String, Error>)
        ensures
            match wallet_balance(self.txs(), wallet@) {
                Ok(balance) => result.is_ok() && result.unwrap()@ == balance && is_decimal(
                    balance,
                ),
                Err(failure) => result.is_err() && result.unwrap_err().failure() == failure,
            },
    {
        let txs = match self.tx_storage.find_wallet_txs(wallet.clone()) {
            Ok(txs) => txs,
            Err(e) => { return Err(e); },
        };
        let mut balance = decimal_zero();
        proof {
            zero_is_amount();
        }
        let mut i: usize = 0;
        assert(txs_view(txs@).subrange(0, 0) =~= Seq::<TxView>::empty());
        while i < txs.len()
            invariant
                i <= txs.len(),
                txs_under(self.txs(), wallet@).is_some(),
                txs_view(txs@) == ordered(txs_under(self.txs(), wallet@).unwrap()),
                is_decimal(balance@),
                balance_of(txs_view(txs@).subrange(0, i as int), wallet@) == Some(balance@),
            decreases txs.len() - i,
        {
            let ghost before = txs_view(txs@).subrange(0, i as int);
            let ghost after = txs_view(txs@).subrange(0, i + 1);
            assert(after.drop_last() =~= before);
            assert(after.last() == txs[i as int]@);
            let tx = &txs[i];
            let next = if !is_amount_text(tx.amount.as_str()) {
                None
            } else if tx.to == wallet || is_text(&tx.to, UNSTAKE_WALLET) {
                Some(decimal_add(balance.as_str(), tx.amount.as_str()))
            } else {
                Some(decimal_subtract(balance.as_str(), tx.amount.as_str()))
            };
            match next {
                Some(next) => {
                    balance = next;
                },
                None => {
                    proof {
                        balance_of_fails_on(txs_view(txs@), wallet@, i + 1);
                    }
                    return Err(Error::new(ErrorKind::Storage, "Invalid amount"));
                },
            }
            i = i + 1;
        }
        assert(txs_view(txs@).subrange(0, i as int) =~= txs_view(txs@));
        Ok(balance)
    }

    /// A wallet's stake, where its transactions can be read and leave at
    /// least the minimum; nothing otherwise.
    pub fn wallet_stake(&self, wallet: String) -> (result: Option<Stake>)
        ensures
            match stake_of(self.txs(), wallet@) {
                Some(stake) => result.is_some() && result.unwrap()@ == stake,
                None => result.is_none(),
            },
    {
        let txs = match self.tx_storage.find_wallet_txs(wallet.clone()) {
            Ok(txs) => txs,
            Err(_) => { return None; },
        };
        let mut stake = integer_zero();
        let mut i: usize = 0;
        assert(txs_view(txs@).subrange(0, 0) =~= Seq::<TxView>::empty());
        while i < txs.len()
            invariant
                i <= txs.len(),
                txs_under(self.txs(), wallet@).is_some(),
                txs_view(txs@) == ordered(txs_under(self.txs(), wallet@).unwrap()),
                prints(stake@, integer_of(stake@)),
                staked_of(txs_view(txs@).subrange(0, i as int)) == Some(integer_of(stake@)),
            decreases txs.len() - i,
        {
            let ghost before = txs_view(txs@).subrange(0, i as int);
            let ghost after = txs_view(txs@).subrange(0, i + 1);
            assert(after.drop_last() =~= before);
            assert(after.last() == txs[i as int]@);
            let tx = &txs[i];
            let adds = is_text(&tx.to, STAKE_WALLET);
            if adds || is_text(&tx.to, UNSTAKE_WALLET) {
                let next = if is_amount_text(tx.amount.as_str()) {
                    let amount = decimal_to_integer(tx.amount.as_str());
                    if adds {
                        integer_add(stake.as_str(), amount.as_str())
                    } else {
                        integer_subtract(stake.as_str(), amount.as_str())
                    }
                } else {
                    None
                };
                match next {
                    Some(next) => {
                        stake = next;
                    },
                    None => {
                        proof {
                            staked_of_fails_on(txs_view(txs@), i + 1);
                        }
                        return None;
                    },
                }
            }
            i = i + 1;
        }
        assert(txs_view(txs@).subrange(0, i as int) =~= txs_view(txs@));
        Stake::new(wallet, stake)
    }

    /// Admits a transaction: it is saved as pending and its nonce becomes
    /// its sender's last. A transaction that fails a check is rejected with
    /// `InvalidInput` and changes nothing; a record of the wrong kind in the
    /// way fails with `Storage`. `admission` says which check failed, and
    /// `added` what the ledger holds afterwards.
    pub fn add_tx(&mut self, tx: &Tx) -> (result: Result<(), Error>)
        ensures
            old(self).well_kept() ==> final(self).well_kept(),
            final(self).validator() == old(self).validator(),
            final(self).blocks() == old(self).blocks(),
            final(self).txs() == added(old(self).txs(), old(self).nonces(), tx@).0,
            final(self).nonces() == added(old(self).txs(), old(self).nonces(), tx@).1,
            verdict(result) == added(old(self).txs(), old(self).nonces(), tx@).2,
    {
        proof {
            ledger_stays_kept(
                self.validator(),
                self.txs(),
                self.blocks(),
                self.nonces(),
                tx@,
                genesis_block(Seq::<TxView>::empty()),
                Seq::<TxView>::empty(),
                0,
                0,
            );
        }
        reveal(admission);
        let nonce = match self.nonce(tx.from()) {
            Ok(nonce) => nonce,
            Err(e) => { return Err(e); },
        };
        if nonce == u64::MAX {
            return Err(Error::new(ErrorKind::InvalidInput, "Invalid nonce value, expected: none"));
        }
        if nonce + 1 != tx.nonce() {
            let expected = u64_to_string(nonce + 1);
            return Err(
                Error::with_detail(
                    ErrorKind::InvalidInput,
                    "Invalid nonce value, expected: ",
                    expected.as_str(),
                ),
            );
        }
        if !tx.valid() {
            return Err(Error::new(ErrorKind::InvalidInput, "Invalid transaction signature"));
        }
        if is_text(&tx.to, UNSTAKE_WALLET) {
            if !decimal_whole(tx.amount.as_str()) {
                return Err(Error::new(ErrorKind::InvalidInput, "The value must be an integer"));
            }
            let amount = decimal_to_integer(tx.amount.as_str());
            let enough = match self.wallet_stake(tx.from()) {
                Some(stake) => {
                    let staked = stake.stake();
                    integer_less(staked.as_str(), amount.as_str()) == Some(false)
                },
                None => false,
            };
            if !enough {
                return Err(Error::new(ErrorKind::InvalidInput, "Not enough stake"));
            }
        } else {
            let balance = match self.balance(tx.from()) {
                Ok(balance) => balance,
                Err(e) => { return Err(e); },
            };
            if decimal_less(balance.as_str(), tx.amount.as_str()) {
                return Err(
                    Error::with_detail(
                        ErrorKind::InvalidInput,
                        "Not enough balance, current: ",
                        balance.as_str(),
                    ),
                );
            }
        }
        match self.tx_storage.save(tx) {
            Ok(_) => {},
            Err(e) => { return Err(e); },
        }
        self.nonce_storage.save(tx.from(), tx.nonce())
    }

    /// Admits a block from a peer: its transactions are saved, then the
    /// block. Nothing else about the block is checked. It fails, with
    /// `Storage`, exactly where one of the transactions cannot be saved; the
    /// block is then not saved.
    pub fn add_block(&mut self, block: &Block) -> (result: Result<(), Error>)
        ensures
            old(self).well_kept() ==> final(self).well_kept(),
            final(self).validator() == old(self).validator(),
            final(self).nonces() == old(self).nonces(),
            final(self).txs() == block_added(old(self).txs(), old(self).blocks(), block@).0,
            final(self).blocks() == block_added(old(self).txs(), old(self).blocks(), block@).1,
            verdict(result) == block_added(old(self).txs(), old(self).blocks(), block@).2,
    {
        proof {
            ledger_stays_kept(
                self.validator(),
                self.txs(),
                self.blocks(),
                self.nonces(),
                TxView {
                    hash: Seq::empty(),
                    from: Seq::empty(),
                    to: Seq::empty(),
                    amount: Seq::empty(),
                    nonce: 0,
                    timestamp: 0,
                    signature: Seq::empty(),
                    block: None,
                },
                block@,
                Seq::<TxView>::empty(),
                0,
                0,
            );
        }
        match &block.txs {
            Some(txs) => {
                match self.save_all(txs) {
                    Ok(_) => {},
                    Err(e) => { return Err(e); },
                }
            },
            None => {},
        }
        self.block_storage.save(block)
    }

    /// Saves each of a list of transactions in turn.
    fn save_all(&mut self, txs: &Vec<Tx>) -> (result: Result<(), Error>)
        ensures
            final(self).validator() == old(self).validator(),
            final(self).nonces() == old(self).nonces(),
            final(self).blocks() == old(self).blocks(),
            final(self).txs() == saved_all(old(self).txs(), txs_view(txs@)).0,
            result.is_ok() == saved_all(old(self).txs(), txs_view(txs@)).1,
            result.is_err() ==> result.unwrap_err().failure() == unexpected_record(),
    {
        let ghost start = self.txs();
        let mut i: usize = 0;
        assert(txs_view(txs@).subrange(0, 0) =~= Seq::<TxView>::empty());
        while i < txs.len()
            invariant
                i <= txs.len(),
                self.validator() == old(self).validator(),
                self.nonces() == old(self).nonces(),
                self.blocks() == old(self).blocks(),
                start == old(self).txs(),
                saved_all(start, txs_view(txs@).subrange(0, i as int)).0 == self.txs(),
                saved_all(start, txs_view(txs@).subrange(0, i as int)).1,
            decreases txs.len() - i,
        {
            let ghost before = txs_view(txs@).subrange(0, i as int);
            let ghost after = txs_view(txs@).subrange(0, i + 1);
            let ghost held = self.txs();
            assert(after.drop_last() =~= before);
            assert(after.last() == txs[i as int]@);
            assert(saved_all(start, after) == saved(held, txs[i as int]@));
            match self.tx_storage.save(&txs[i]) {
                Ok(_) => {},
                Err(e) => {
                    proof {
                        saved_all_stops(start, txs_view(txs@), i + 1);
                    }
                    return Err(e);
                },
            }
            i = i + 1;
        }
        assert(txs_view(txs@).subrange(0, i as int) =~= txs_view(txs@));
        Ok(())
    }

    /// Loads the genesis manifest where the ledger has no block zero yet:
    /// each transaction is saved and its nonce recorded, then the genesis
    /// block over them is saved. Where block zero is there, nothing is done.
    /// It fails with `InvalidInput` exactly where the manifest is needed and
    /// empty, and with `Storage` exactly where a record of the wrong kind is
    /// in the way.
    pub fn load_genesis(&mut self, manifest: Vec<Tx>) -> (result: Result<(), Error>)
        ensures
            old(self).well_kept() ==> final(self).well_kept(),
            final(self).validator() == old(self).validator(),
            final(self).txs() == genesis_loaded(
                old(self).txs(),
                old(self).blocks(),
                old(self).nonces(),
                txs_view(manifest@),
            ).0,
            final(self).blocks() == genesis_loaded(
                old(self).txs(),
                old(self).blocks(),
                old(self).nonces(),
                txs_view(manifest@),
            ).1,
            final(self).nonces() == genesis_loaded(
                old(self).txs(),
                old(self).blocks(),
                old(self).nonces(),
                txs_view(manifest@),
            ).2,
            verdict(result) == genesis_loaded(
                old(self).txs(),
                old(self).blocks(),
                old(self).nonces(),
                txs_view(manifest@),
            ).3,
    {
        proof {
            ledger_stays_kept(
                self.validator(),
                self.txs(),
                self.blocks(),
                self.nonces(),
                TxView {
                    hash: Seq::empty(),
                    from: Seq::empty(),
                    to: Seq::empty(),
                    amount: Seq::empty(),
                    nonce: 0,
                    timestamp: 0,
                    signature: Seq::empty(),
                    block: None,
                },
                genesis_block(Seq::<TxView>::empty()),
                txs_view(manifest@),
                0,
                0,
            );
        }
        match self.block_storage.find_by_idx(0) {
            Ok(Some(_)) => { return Ok(()); },
            Ok(None) => {},
            Err(e) => { return Err(e); },
        }
        if manifest.len() == 0 {
            return Err(Error::new(ErrorKind::InvalidInput, "Genesis manifest is empty"));
        }
        let genesis = Block::genesis(clone_txs(&manifest));
        let ghost txs_start = self.txs();
        let ghost nonces_start = self.nonces();
        let mut i: usize = 0;
        assert(txs_view(manifest@).subrange(0, 0) =~= Seq::<TxView>::empty());
        while i < manifest.len()
            invariant
                i <= manifest.len(),
                self.validator() == old(self).validator(),
                self.blocks() == old(self).blocks(),
                txs_start == old(self).txs(),
                nonces_start == old(self).nonces(),
                manifest.len() > 0,
                block_by_idx(old(self).blocks(), 0) == Lookup::<BlockView>::Missing,
                old(self).well_kept() ==> kept(
                    genesis_loaded(
                        old(self).txs(),
                        old(self).blocks(),
                        old(self).nonces(),
                        txs_view(manifest@),
                    ).0,
                    genesis_loaded(
                        old(self).txs(),
                        old(self).blocks(),
                        old(self).nonces(),
                        txs_view(manifest@),
                    ).1,
                ),
                genesis_saved(txs_start, nonces_start, txs_view(manifest@).subrange(0, i as int)).0
                    == self.txs(),
                genesis_saved(txs_start, nonces_start, txs_view(manifest@).subrange(0, i as int)).1
                    == self.nonces(),
                genesis_saved(txs_start, nonces_start, txs_view(manifest@).subrange(0, i as int)).2,
            decreases manifest.len() - i,
        {
            let ghost before = txs_view(manifest@).subrange(0, i as int);
            let ghost after = txs_view(manifest@).subrange(0, i + 1);
            let ghost held = self.txs();
            let ghost counted = self.nonces();
            assert(after.drop_last() =~= before);
            assert(after.last() == manifest[i as int]@);
            assert(genesis_saved(txs_start, nonces_start, after) == genesis_step(
                held,
                counted,
                manifest[i as int]@,
            ));
            let tx = &manifest[i];
            match self.tx_storage.save(tx) {
                Ok(_) => {},
                Err(e) => {
                    proof {
                        genesis_saved_stops(txs_start, nonces_start, txs_view(manifest@), i + 1);
                    }
                    return Err(e);
                },
            }
            match self.nonce_storage.save(tx.from(), tx.nonce()) {
                Ok(_) => {},
                Err(e) => { return Err(e); },
            }
            i = i + 1;
        }
        assert(txs_view(manifest@).subrange(0, i as int) =~= txs_view(manifest@));
        self.block_storage.save(&genesis)
    }

    /// The block of an index with the transactions of that index, if the
    /// block was saved. It fails, with `Storage`, exactly where the block or
    /// its transactions cannot be read.
    pub fn find_block_by_idx(&self, idx: u64) -> (result: Result<Option<Block>, Error>)
        ensures
            match full_block(self.txs(), self.blocks(), idx) {
                Ok(Some(block)) => result.is_ok() && result.unwrap().is_some()
                    && result.unwrap().unwrap()@ == block,
                Ok(None) => result.is_ok() && result.unwrap().is_none(),
                Err(failure) => result.is_err() && result.unwrap_err().failure() == failure,
            },
    {
        match self.block_storage.find_by_idx(idx) {
            Ok(Some(block)) => {
                let txs = match self.tx_storage.find_by_block_idx(idx) {
                    Ok(txs) => txs,
                    Err(e) => { return Err(e); },
                };
                let mut block = block;
                block.txs = Some(txs);
                Ok(Some(block))
            },
            Ok(None) => Ok(None),
            Err(e) => Err(e),
        }
    }

    /// The active validator set: for each wallet that ever staked, in
    /// dictionary order, its net stake where that is at least the minimum.
    /// It fails, with `Storage`, exactly where the staking transactions
    /// cannot be read or one of their amounts is not a plain numeral.
    pub fn stakes(&self) -> (result: Result<Vec<Stake>, Error>)
        ensures
            match stakes_of(self.txs()) {
                Ok(stakes) => result.is_ok() && stakes_view(result.unwrap()@) == stakes,
                Err(failure) => result.is_err() && result.unwrap_err().failure() == failure,
            },
    {
        let stakes = match self.tx_storage.find_wallet_txs(STAKE_WALLET.to_owned()) {
            Ok(txs) => txs,
            Err(e) => { return Err(e); },
        };
        let unstakes = match self.tx_storage.find_wallet_txs(UNSTAKE_WALLET.to_owned()) {
            Ok(txs) => txs,
            Err(e) => { return Err(e); },
        };
        let none: Vec<String> = Vec::new();
        assert(texts_view(none@) =~= Seq::<Seq<char>>::empty());
        let staking = collect_senders(&stakes, STAKE_WALLET, none);
        let wallets = collect_senders(&unstakes, UNSTAKE_WALLET, staking);
        let mut result: Vec<Stake> = Vec::new();
        let mut i: usize = 0;
        assert(texts_view(wallets@).subrange(0, 0) =~= Seq::<Seq<char>>::empty());
        assert(stakes_view(result@) =~= Seq::<StakeView>::empty());
        while i < wallets.len()
            invariant
                i <= wallets.len(),
                txs_under(self.txs(), STAKE_WALLET@).is_some(),
                txs_under(self.txs(), UNSTAKE_WALLET@).is_some(),
                txs_view(stakes@) == ordered(txs_under(self.txs(), STAKE_WALLET@).unwrap()),
                txs_view(unstakes@) == ordered(txs_under(self.txs(), UNSTAKE_WALLET@).unwrap()),
                texts_view(wallets@) == stakers(txs_view(stakes@), txs_view(unstakes@)),
                stake_list(
                    texts_view(wallets@).subrange(0, i as int),
                    txs_view(stakes@),
                    txs_view(unstakes@),
                ) == Some(stakes_view(result@)),
            decreases wallets.len() - i,
        {
            let ghost before = texts_view(wallets@).subrange(0, i as int);
            let ghost after = texts_view(wallets@).subrange(0, i + 1);
            assert(after.drop_last() =~= before);
            assert(after.last() == wallets[i as int]@);
            let ghost listed = stakes_view(result@);
            let wallet = &wallets[i];
            let net = match tally_stake(&stakes, STAKE_WALLET, wallet, integer_zero(), true) {
                Some(staked) => tally_stake(&unstakes, UNSTAKE_WALLET, wallet, staked, false),
                None => None,
            };
            match net {
                Some(net) => {
                    match Stake::new(wallet.clone(), net) {
                        Some(stake) => {
                            result.push(stake);
                            assert(stakes_view(result@) =~= listed.push(stake@));
                        },
                        None => {},
                    }
                },
                None => {
                    proof {
                        stake_list_fails_on(
                            texts_view(wallets@),
                            txs_view(stakes@),
                            txs_view(unstakes@),
                            i + 1,
                        );
                    }
                    return Err(Error::new(ErrorKind::Storage, "Invalid amount"));
                },
            }
            i = i + 1;
        }
        assert(texts_view(wallets@).subrange(0, i as int) =~= texts_view(wallets@));
        Ok(result)
    }

    /// Elects the validator of the slot on top of a latest block: the seed
    /// over the block and the stakes is reduced to a ticket, and the ticket
    /// elects among the stakes. Whatever the ticket, the result is the
    /// validator that it elects.
    fn select_validator(&self, latest: &Block, stakes: &Vec<Stake>, total: &String) -> (validator:
        String)
        requires
            is_integer(total@),
        ensures
            exists|ticket: u64|
                validator@ == #[trigger] elected(
                    stakes_view(stakes@),
                    integer_of(total@),
                    ticket,
                ),
    {
        let ticket = match seed_of(latest, stakes) {
            Some(seed) => hash_to_int(&seed),
            None => 0,
        };
        let validator = elect(stakes, total, ticket);
        assert(validator@ == elected(stakes_view(stakes@), integer_of(total@), ticket));
        validator
    }

    /// Runs a slot: the validator is elected from the stakes and the latest
    /// block, and where it is this node's, a block is created out of the
    /// pending transactions; otherwise the slot passes with `NotElected`
    /// and nothing changes. The outcome is that of `produced` for the
    /// ticket that the seed gave and the time of the call.
    pub fn proof_of_stake(&mut self) -> (result: Result<Block, Error>)
        ensures
            old(self).well_kept() ==> final(self).well_kept(),
            is_chain(old(self).blocks()) ==> is_chain(final(self).blocks()),
            final(self).validator() == old(self).validator(),
            final(self).nonces() == old(self).nonces(),
            exists|ticket: u64, timestamp: u64|
                #![trigger produced(old(self).validator(), old(self).txs(), old(self).blocks(), ticket, timestamp)]
                (final(self).txs(), final(self).blocks(), block_verdict(result)) == produced(
                    old(self).validator(),
                    old(self).txs(),
                    old(self).blocks(),
                    ticket,
                    timestamp,
                ),
    {
        let ghost validator = self.validator();
        let ghost txs = self.txs();
        let ghost blocks = self.blocks();
        let latest = match self.block_storage.find_latest() {
            Ok(latest) => latest,
            Err(e) => {
                assert((txs, blocks, Err::<BlockView, Failure>(e.failure())) == produced(
                    validator,
                    txs,
                    blocks,
                    0,
                    0,
                ));
                return Err(e);
            },
        };
        let stakes = match self.stakes() {
            Ok(stakes) => stakes,
            Err(e) => {
                assert((txs, blocks, Err::<BlockView, Failure>(e.failure())) == produced(
                    validator,
                    txs,
                    blocks,
                    0,
                    0,
                ));
                return Err(e);
            },
        };
        let total = total_stake(&stakes);
        let elected_validator = self.select_validator(&latest, &stakes, &total);
        let ghost ticket = choose|ticket: u64|
            elected_validator@ == #[trigger] elected(
                stakes_view(stakes@),
                integer_of(total@),
                ticket,
            );
        if elected_validator == self.wallet.address() {
            let timestamp = unix_time();
            let result = self.create_block_at(timestamp);
            assert((self.txs(), self.blocks(), block_verdict(result)) == produced(
                validator,
                txs,
                blocks,
                ticket,
                timestamp,
            ));
            result
        } else {
            let e = Error::new(ErrorKind::NotElected, "Other validator selected");
            assert((txs, blocks, Err::<BlockView, Failure>(e.failure())) == produced(
                validator,
                txs,
                blocks,
                ticket,
                0,
            ));
            Err(e)
        }
    }

    /// Runs a slot for a given ticket and time: where the ticket elects this
    /// node's validator, a block is created out of the pending transactions;
    /// otherwise the slot passes with `NotElected` and nothing changes.
    pub fn proof_of_stake_with(&mut self, ticket: u64, timestamp: u64) -> (result: Result<
        Block,
        Error,
    >)
        ensures
            old(self).well_kept() ==> final(self).well_kept(),
            is_chain(old(self).blocks()) ==> is_chain(final(self).blocks()),
            final(self).validator() == old(self).validator(),
            final(self).nonces() == old(self).nonces(),
            (final(self).txs(), final(self).blocks(), block_verdict(result)) == produced(
                old(self).validator(),
                old(self).txs(),
                old(self).blocks(),
                ticket,
                timestamp,
            ),
    {
        proof {
            ledger_stays_kept(
                self.validator(),
                self.txs(),
                self.blocks(),
                self.nonces(),
                TxView {
                    hash: Seq::empty(),
                    from: Seq::empty(),
                    to: Seq::empty(),
                    amount: Seq::empty(),
                    nonce: 0,
                    timestamp: 0,
                    signature: Seq::empty(),
                    block: None,
                },
                genesis_block(Seq::<TxView>::empty()),
                Seq::<TxView>::empty(),
                ticket,
                timestamp,
            );
        }
        match self.block_storage.find_latest() {
            Ok(_) => {},
            Err(e) => { return Err(e); },
        }
        let stakes = match self.stakes() {
            Ok(stakes) => stakes,
            Err(e) => { return Err(e); },
        };
        let total = total_stake(&stakes);
        let validator = elect(&stakes, &total, ticket);
        if validator == self.wallet.address() {
            self.create_block_at(timestamp)
        } else {
            Err(Error::new(ErrorKind::NotElected, "Other validator selected"))
        }
    }

    /// Creates a block out of the pending transactions on top of the latest
    /// block, stamped with the current time. The outcome is that of
    /// `created` for the time of the call.
    pub fn create_block(&mut self) -> (result: Result<Block, Error>)
        ensures
            result.is_ok() && old(self).well_kept() ==> txs_under(final(self).txs(), NO_BLOCK_IDX@)
                == Some(Seq::<TxView>::empty()),
            result.is_ok() && is_chain(old(self).blocks()) ==> result.unwrap().idx > 0 && (
            block_by_idx(final(self).blocks(), (result.unwrap().idx - 1) as u64) matches Lookup::Found(
                parent,
            ) && result.unwrap()@.parent_hash == parent.hash_text()),
            old(self).well_kept() ==> final(self).well_kept(),
            is_chain(old(self).blocks()) ==> is_chain(final(self).blocks()),
            final(self).validator() == old(self).validator(),
            final(self).nonces() == old(self).nonces(),
            exists|timestamp: u64|
                #![trigger created(old(self).validator(), old(self).txs(), old(self).blocks(), timestamp)]
                (final(self).txs(), final(self).blocks(), block_verdict(result)) == created(
                    old(self).validator(),
                    old(self).txs(),
                    old(self).blocks(),
                    timestamp,
                ),
    {
        let timestamp = unix_time();
        let result = self.create_block_at(timestamp);
        assert((self.txs(), self.blocks(), block_verdict(result)) == created(
            old(self).validator(),
            old(self).txs(),
            old(self).blocks(),
            timestamp,
        ));
        result
    }

    /// Creates a block out of the pending transactions on top of the latest
    /// block, with a given timestamp: the block is signed by the validator,
    /// the pending transactions are moved into it, and it is saved as the
    /// latest. It fails with `NotFound` exactly where there is no latest
    /// block, with `InvalidInput` exactly where the latest index is the
    /// last there is, and with `Storage` exactly where a record of the
    /// wrong kind is in the way; a failure changes nothing.
    pub fn create_block_at(&mut self, timestamp: u64) -> (result: Result<Block, Error>)
        ensures
            result.is_ok() && old(self).well_kept() ==> txs_under(final(self).txs(), NO_BLOCK_IDX@)
                == Some(Seq::<TxView>::empty()),
            result.is_ok() && is_chain(old(self).blocks()) ==> result.unwrap().idx > 0 && (
            block_by_idx(final(self).blocks(), (result.unwrap().idx - 1) as u64) matches Lookup::Found(
                parent,
            ) && result.unwrap()@.parent_hash == parent.hash_text()),
            old(self).well_kept() ==> final(self).well_kept(),
            is_chain(old(self).blocks()) ==> is_chain(final(self).blocks()),
            final(self).validator() == old(self).validator(),
            final(self).nonces() == old(self).nonces(),
            (final(self).txs(), final(self).blocks(), block_verdict(result)) == created(
                old(self).validator(),
                old(self).txs(),
                old(self).blocks(),
                timestamp,
            ),
    {
        proof {
            ledger_stays_kept(
                self.validator(),
                self.txs(),
                self.blocks(),
                self.nonces(),
                TxView {
                    hash: Seq::empty(),
                    from: Seq::empty(),
                    to: Seq::empty(),
                    amount: Seq::empty(),
                    nonce: 0,
                    timestamp: 0,
                    signature: Seq::empty(),
                    block: None,
                },
                genesis_block(Seq::<TxView>::empty()),
                Seq::<TxView>::empty(),
                0,
                timestamp,
            );
            let made = created(self.validator(), self.txs(), self.blocks(), timestamp);
            assert(made.2.is_ok() && kept(self.txs(), self.blocks()) ==> txs_under(
                made.0,
                NO_BLOCK_IDX@,
            ) == Some(Seq::<TxView>::empty())) by {
                reveal(kept);
                if made.2.is_ok() && kept(self.txs(), self.blocks()) {
                    created_block_takes_pending(
                        self.validator(),
                        self.txs(),
                        self.blocks(),
                        timestamp,
                    );
                }
            }
            assert(made.2.is_ok() && is_chain(self.blocks()) ==> (made.2->Ok_0).idx > 0
                && block_by_idx(made.1, ((made.2->Ok_0).idx - 1) as u64) == latest_block(
                self.blocks(),
            ) && latest_block(self.blocks()) is Found && (made.2->Ok_0).parent_hash == (latest_block(
                self.blocks(),
            )->Found_0).hash_text()) by {
                reveal(is_chain);
                if made.2.is_ok() && is_chain(self.blocks()) {
                    created_block_is_linked(
                        self.validator(),
                        self.txs(),
                        self.blocks(),
                        timestamp,
                    );
                }
            }
        }
        let latest_block = match self.block_storage.find_latest() {
            Ok(latest) => latest,
            Err(e) => { return Err(e); },
        };
        if latest_block.idx == u64::MAX {
            return Err(Error::new(ErrorKind::InvalidInput, "Block index exhausted"));
        }
        let pending_txs = match self.tx_storage.find_pending() {
            Ok(pending) => pending,
            Err(e) => { return Err(e); },
        };
        let block = match Block::new_at(
            &self.wallet,
            latest_block.idx + 1,
            latest_block.hash_str(),
            clone_txs(&pending_txs),
            timestamp,
        ) {
            Ok(block) => block,
            Err(e) => { return Err(e); },
        };
        match self.tx_storage.update_pending(&pending_txs, block.idx) {
            Ok(_) => {},
            Err(e) => { return Err(e); },
        }
        match self.block_storage.save(&block) {
            Ok(_) => {},
            Err(e) => { return Err(e); },
        }
        Ok(block)
    }
}

/// Saving a list of transactions stops where it fails for a part of the
/// list.
proof fn saved_all_stops(txs: Store, list: Seq<TxView>, n: int)
    requires
        0 <= n <= list.len(),
        !saved_all(txs, list.subrange(0, n)).1,
    ensures
        saved_all(txs, list) == saved_all(txs, list.subrange(0, n)),
    decreases list.len() - n,
{
    if n < list.len() {
        assert(list.subrange(0, n + 1).drop_last() =~= list.subrange(0, n));
        saved_all_stops(txs, list, n + 1);
    } else {
        assert(list.subrange(0, n) =~= list);
    }
}

/// Loading a manifest stops where it fails for a part of the manifest.
proof fn genesis_saved_stops(txs: Store, nonces: Store, manifest: Seq<TxView>, n: int)
    requires
        0 <= n <= manifest.len(),
        !genesis_saved(txs, nonces, manifest.subrange(0, n)).2,
    ensures
        genesis_saved(txs, nonces, manifest) == genesis_saved(txs, nonces, manifest.subrange(0, n)),
    decreases manifest.len() - n,
{
    if n < manifest.len() {
        assert(manifest.subrange(0, n + 1).drop_last() =~= manifest.subrange(0, n));
        genesis_saved_stops(txs, nonces, manifest, n + 1);
    } else {
        assert(manifest.subrange(0, n) =~= manifest);
    }
}

/// A balance fails where it fails for a part of the transactions.
proof fn balance_of_fails_on(txs: Seq<TxView>, wallet: Seq<char>, n: int)
    requires
        0 <= n <= txs.len(),
        balance_of(txs.subrange(0, n), wallet).is_none(),
    ensures
        balance_of(txs, wallet).is_none(),
    decreases txs.len() - n,
{
    if n < txs.len() {
        assert(txs.subrange(0, n + 1).drop_last() =~= txs.subrange(0, n));
        balance_of_fails_on(txs, wallet, n + 1);
    } else {
        assert(txs.subrange(0, n) =~= txs);
    }
}

/// A stake fails where it fails for a part of the transactions.
proof fn staked_of_fails_on(txs: Seq<TxView>, n: int)
    requires
        0 <= n <= txs.len(),
        staked_of(txs.subrange(0, n)).is_none(),
    ensures
        staked_of(txs).is_none(),
    decreases txs.len() - n,
{
    if n < txs.len() {
        assert(txs.subrange(0, n + 1).drop_last() =~= txs.subrange(0, n));
        staked_of_fails_on(txs, n + 1);
    } else {
        assert(txs.subrange(0, n) =~= txs);
    }
}

/// A transaction that was admitted is valid: its amount is a plain numeral
/// without sign, so not below zero; its signature verifies under its
/// sender's key over its hash; and its nonce was its sender's last nonce
/// plus one. It then is its sender's last nonce, and no other wallet's nonce
/// has changed; a transaction that was not admitted changes no nonce.
pub proof fn admitted_is_signed(txs: Store, nonces: Store, tx: TxView)
    ensures
        added(txs, nonces, tx).2.is_ok() ==> {
            &&& tx.is_valid()
            &&& is_amount(tx.amount)
            &&& tx.is_signed()
            &&& tx.nonce > 0
            &&& nonce_of(nonces, tx.from) == Lookup::Found((tx.nonce - 1) as u64)
            &&& added(txs, nonces, tx).1 == nonces.insert(
                nonce_key(tx.from),
                RecordView::Number(tx.nonce),
            )
        },
        added(txs, nonces, tx).2.is_err() ==> added(txs, nonces, tx).1 == nonces,
{
    reveal(admission);
}

/// Recording a nonce for one wallet leaves the nonce of every other wallet.
proof fn other_nonce_stays(nonces: Store, from: Seq<char>, nonce: u64, wallet: Seq<char>)
    requires
        from != wallet,
    ensures
        nonce_of(nonces.insert(nonce_key(from), RecordView::Number(nonce)), wallet) == nonce_of(
            nonces,
            wallet,
        ),
{
    if nonce_key(from) == nonce_key(wallet) {
        prefix_cancels("nonce."@, from, wallet);
    }
}

/// What submitting a transaction does to the nonce of a wallet: where the
/// transaction is admitted and the wallet is its sender, the nonce goes up
/// by one; otherwise it stays.
proof fn added_nonce(txs: Store, nonces: Store, tx: TxView, wallet: Seq<char>, last: u64)
    requires
        nonce_of(nonces, wallet) == Lookup::Found(last),
    ensures
        tx.from == wallet && added(txs, nonces, tx).2.is_ok() ==> last < u64::MAX && nonce_of(
            added(txs, nonces, tx).1,
            wallet,
        ) == Lookup::Found((last + 1) as u64),
        !(tx.from == wallet && added(txs, nonces, tx).2.is_ok()) ==> nonce_of(
            added(txs, nonces, tx).1,
            wallet,
        ) == Lookup::Found(last),
{
    admitted_is_signed(txs, nonces, tx);
    if added(txs, nonces, tx).2.is_ok() && tx.from != wallet {
        other_nonce_stays(nonces, tx.from, tx.nonce, wallet);
    }
}

/// After any log of submitted transactions, a wallet's nonce is the nonce it
/// had before plus the number of its transactions that were admitted. From
/// a ledger without nonces it is that number.
pub proof fn nonce_counts_admitted(
    txs: Store,
    nonces: Store,
    log: Seq<TxView>,
    wallet: Seq<char>,
    start: u64,
)
    requires
        nonce_of(nonces, wallet) == Lookup::Found(start),
    ensures
        start + admitted_from(txs, nonces, log, wallet) <= u64::MAX,
        nonce_of(after_log(txs, nonces, log).1, wallet) == Lookup::Found(
            (start + admitted_from(txs, nonces, log, wallet)) as u64,
        ),
    decreases log.len(),
{
    if log.len() > 0 {
        nonce_counts_admitted(txs, nonces, log.drop_last(), wallet, start);
        let front = after_log(txs, nonces, log.drop_last());
        let before = admitted_from(txs, nonces, log.drop_last(), wallet);
        added_nonce(front.0, front.1, log.last(), wallet, (start + before) as u64);
    }
}

/// Loading the genesis manifest into a ledger without blocks starts a
/// chain: block zero is its only and latest block.
pub proof fn genesis_starts_chain(txs: Store, blocks: Store, nonces: Store, manifest: Seq<TxView>)
    requires
        forall|idx: u64| #[trigger] block_by_idx(blocks, idx) is Missing,
        number_at(blocks, latest_key()) is Missing,
        genesis_loaded(txs, blocks, nonces, manifest).3.is_ok(),
    ensures
        chained(genesis_loaded(txs, blocks, nonces, manifest).1),
        latest_block(genesis_loaded(txs, blocks, nonces, manifest).1) == Lookup::Found(
            genesis_block(manifest).stripped(),
        ),
{
    assert(block_by_idx(blocks, 0) is Missing);
    first_block_starts_chain(blocks, genesis_block(manifest));
    saved_block_is_found(blocks, genesis_block(manifest));
}

/// A block that was created stands on the latest block: its index is the
/// one after, its parent is the latest block's hash, and the latest block
/// is still kept under the index before it. Where the blocks were a chain,
/// they are a chain with the created block as the last.
pub proof fn created_block_is_linked(validator: Wallet, txs: Store, blocks: Store, timestamp: u64)
    requires
        created(validator, txs, blocks, timestamp).2.is_ok(),
        chained(blocks),
    ensures
        chained(created(validator, txs, blocks, timestamp).1),
        latest_block(blocks) is Found,
        ({
            let block = created(validator, txs, blocks, timestamp).2->Ok_0;
            let after = created(validator, txs, blocks, timestamp).1;
            let parent = latest_block(blocks)->Found_0;
            &&& block.idx == parent.idx + 1
            &&& block.parent_hash == parent.hash_text()
            &&& latest_block(after) == Lookup::Found(block.stripped())
            &&& block_by_idx(after, (block.idx - 1) as u64) == Lookup::Found(parent)
        }),
{
    let block = created(validator, txs, blocks, timestamp).2->Ok_0;
    saved_block_extends_chain(blocks, block);
}

/// Saving a list of transactions keeps the transaction index sound.
proof fn saved_all_keeps_sound(txs: Store, list: Seq<TxView>)
    requires
        sound(txs),
    ensures
        sound(saved_all(txs, list).0),
    decreases list.len(),
{
    if list.len() > 0 {
        saved_all_keeps_sound(txs, list.drop_last());
        save_keeps_sound(saved_all(txs, list.drop_last()).0, list.last());
    }
}

/// Loading a manifest keeps the transaction index sound.
proof fn genesis_saved_keeps_sound(txs: Store, nonces: Store, manifest: Seq<TxView>)
    requires
        sound(txs),
    ensures
        sound(genesis_saved(txs, nonces, manifest).0),
    decreases manifest.len(),
{
    if manifest.len() > 0 {
        genesis_saved_keeps_sound(txs, nonces, manifest.drop_last());
        save_keeps_sound(genesis_saved(txs, nonces, manifest.drop_last()).0, manifest.last());
    }
}

/// Every operation of the ledger keeps the transaction index sound: each
/// transaction stays under its own hash, and each hash of each set keeps
/// its transaction. A ledger that starts empty is therefore always sound.
pub proof fn ledger_stays_sound(
    validator: Wallet,
    txs: Store,
    blocks: Store,
    nonces: Store,
    tx: TxView,
    block: BlockView,
    manifest: Seq<TxView>,
    ticket: u64,
    timestamp: u64,
)
    requires
        sound(txs),
    ensures
        sound(added(txs, nonces, tx).0),
        sound(block_added(txs, blocks, block).0),
        sound(genesis_loaded(txs, blocks, nonces, manifest).0),
        sound(created(validator, txs, blocks, timestamp).0),
        sound(produced(validator, txs, blocks, ticket, timestamp).0),
{
    save_keeps_sound(txs, tx);
    match block.txs {
        Some(list) => saved_all_keeps_sound(txs, list),
        None => saved_all_keeps_sound(txs, Seq::empty()),
    }
    genesis_saved_keeps_sound(txs, nonces, manifest);
    if txs_under(txs, NO_BLOCK_IDX@).is_some() && latest_block(blocks) is Found {
        let latest = latest_block(blocks)->Found_0;
        if latest.idx < u64::MAX {
            update_pending_keeps_sound(
                txs,
                txs_under(txs, NO_BLOCK_IDX@).unwrap(),
                (latest.idx + 1) as u64,
            );
        }
    }
}

/// Whether the two indexes are well kept: every transaction is under its
/// own hash, every hash of every set has its transaction and stands there
/// once, every block is under its own index, and the latest index is the
/// highest saved.
#[verifier::opaque]
pub open spec fn kept(txs: Store, blocks: Store) -> bool {
    &&& sound(txs)
    &&& tidy(txs)
    &&& indexed(blocks)
    &&& latest_is_highest(blocks)
}

/// Saving a list of transactions, or loading a manifest, keeps the
/// transaction index tidy.
proof fn saved_all_keeps_tidy(txs: Store, nonces: Store, list: Seq<TxView>)
    requires
        tidy(txs),
    ensures
        tidy(saved_all(txs, list).0),
        tidy(genesis_saved(txs, nonces, list).0),
    decreases list.len(),
{
    if list.len() > 0 {
        saved_all_keeps_tidy(txs, nonces, list.drop_last());
        store_stays_tidy(saved_all(txs, list.drop_last()).0, list.last(), Seq::empty(), 0);
        store_stays_tidy(
            genesis_saved(txs, nonces, list.drop_last()).0,
            list.last(),
            Seq::empty(),
            0,
        );
    }
}

/// Whether the blocks are a chain: every block is under its own index, the
/// latest block is the last, and every block after block zero names as its
/// parent the hash of the block before it.
#[verifier::opaque]
pub open spec fn is_chain(blocks: Store) -> bool {
    chained(blocks)
}

/// Every operation of the ledger keeps the transaction index tidy: no set
/// comes to hold a hash twice.
pub proof fn ledger_stays_tidy(
    validator: Wallet,
    txs: Store,
    blocks: Store,
    nonces: Store,
    tx: TxView,
    block: BlockView,
    manifest: Seq<TxView>,
    ticket: u64,
    timestamp: u64,
)
    requires
        tidy(txs),
    ensures
        tidy(added(txs, nonces, tx).0),
        tidy(block_added(txs, blocks, block).0),
        tidy(genesis_loaded(txs, blocks, nonces, manifest).0),
        tidy(created(validator, txs, blocks, timestamp).0),
        tidy(produced(validator, txs, blocks, ticket, timestamp).0),
{
    store_stays_tidy(txs, tx, Seq::empty(), 0);
    match block.txs {
        Some(list) => saved_all_keeps_tidy(txs, nonces, list),
        None => saved_all_keeps_tidy(txs, nonces, Seq::empty()),
    }
    saved_all_keeps_tidy(txs, nonces, manifest);
    if txs_under(txs, NO_BLOCK_IDX@).is_some() && latest_block(blocks) is Found {
        let latest = latest_block(blocks)->Found_0;
        if latest.idx < u64::MAX {
            store_stays_tidy(
                txs,
                tx,
                txs_under(txs, NO_BLOCK_IDX@).unwrap(),
                (latest.idx + 1) as u64,
            );
        }
    }
}

/// Every operation of the ledger keeps the indexes well kept, and creating
/// a block or passing a slot keeps a chain a chain.
pub proof fn ledger_stays_kept(
    validator: Wallet,
    txs: Store,
    blocks: Store,
    nonces: Store,
    tx: TxView,
    block: BlockView,
    manifest: Seq<TxView>,
    ticket: u64,
    timestamp: u64,
)
    ensures
        kept(txs, blocks) ==> {
            &&& kept(added(txs, nonces, tx).0, blocks)
            &&& kept(block_added(txs, blocks, block).0, block_added(txs, blocks, block).1)
            &&& kept(
                genesis_loaded(txs, blocks, nonces, manifest).0,
                genesis_loaded(txs, blocks, nonces, manifest).1,
            )
            &&& kept(
                created(validator, txs, blocks, timestamp).0,
                created(validator, txs, blocks, timestamp).1,
            )
            &&& kept(
                produced(validator, txs, blocks, ticket, timestamp).0,
                produced(validator, txs, blocks, ticket, timestamp).1,
            )
        },
        is_chain(blocks) ==> {
            &&& is_chain(created(validator, txs, blocks, timestamp).1)
            &&& is_chain(produced(validator, txs, blocks, ticket, timestamp).1)
        },
{
    reveal(kept);
    reveal(is_chain);
    if kept(txs, blocks) {
        ledger_stays_tidy(validator, txs, blocks, nonces, tx, block, manifest, ticket, timestamp);
        ledger_stays_sound(validator, txs, blocks, nonces, tx, block, manifest, ticket, timestamp);
        ledger_keeps_latest_highest(
            validator,
            txs,
            blocks,
            nonces,
            block,
            manifest,
            ticket,
            timestamp,
        );
    }
    if is_chain(blocks) {
        ledger_keeps_chain(validator, txs, blocks, ticket, timestamp);
    }
}

/// Every operation of the ledger keeps every block under its own index and
/// the latest index the highest index saved.
pub proof fn ledger_keeps_latest_highest(
    validator: Wallet,
    txs: Store,
    blocks: Store,
    nonces: Store,
    block: BlockView,
    manifest: Seq<TxView>,
    ticket: u64,
    timestamp: u64,
)
    requires
        indexed(blocks),
        latest_is_highest(blocks),
    ensures
        indexed(block_added(txs, blocks, block).1),
        latest_is_highest(block_added(txs, blocks, block).1),
        indexed(genesis_loaded(txs, blocks, nonces, manifest).1),
        latest_is_highest(genesis_loaded(txs, blocks, nonces, manifest).1),
        indexed(created(validator, txs, blocks, timestamp).1),
        latest_is_highest(created(validator, txs, blocks, timestamp).1),
        indexed(produced(validator, txs, blocks, ticket, timestamp).1),
        latest_is_highest(produced(validator, txs, blocks, ticket, timestamp).1),
{
    saved_block_keeps_indexed(blocks, block);
    saved_block_keeps_latest_highest(blocks, block);
    saved_block_keeps_indexed(blocks, genesis_block(manifest));
    saved_block_keeps_latest_highest(blocks, genesis_block(manifest));
    if created(validator, txs, blocks, timestamp).2.is_ok() {
        let made = created(validator, txs, blocks, timestamp).2->Ok_0;
        saved_block_keeps_indexed(blocks, made);
        saved_block_keeps_latest_highest(blocks, made);
    }
}

/// Creating a block, or passing a slot, keeps a chain a chain.
pub proof fn ledger_keeps_chain(
    validator: Wallet,
    txs: Store,
    blocks: Store,
    ticket: u64,
    timestamp: u64,
)
    requires
        chained(blocks),
    ensures
        chained(created(validator, txs, blocks, timestamp).1),
        chained(produced(validator, txs, blocks, ticket, timestamp).1),
{
    if created(validator, txs, blocks, timestamp).2.is_ok() {
        created_block_is_linked(validator, txs, blocks, timestamp);
    }
}

/// A ledger without any record is well kept.
pub proof fn empty_ledger_is_well_kept()
    ensures
        kept(Map::<Seq<char>, RecordView>::empty(), Map::<Seq<char>, RecordView>::empty()),
{
    reveal(kept);
    empty_store_is_sound();
    store_stays_tidy(
        Map::empty(),
        TxView {
            hash: Seq::empty(),
            from: Seq::empty(),
            to: Seq::empty(),
            amount: Seq::empty(),
            nonce: 0,
            timestamp: 0,
            signature: Seq::empty(),
            block: None,
        },
        Seq::empty(),
        0,
    );
}

/// The address of a wallet has 66 digits, so it is never the empty text
/// that an election without a winner gives.
pub proof fn address_has_66_digits(wallet: Wallet)
    ensures
        wallet.address_text().len() == 66,
{
    hex_text_is_hex(public_key_of(wallet.secret_bytes())@);
}

/// A slot without stakes elects nobody: it passes with `NotElected` and
/// changes nothing.
pub proof fn slot_without_stakes_passes(
    validator: Wallet,
    txs: Store,
    blocks: Store,
    ticket: u64,
    timestamp: u64,
)
    requires
        latest_block(blocks) is Found,
        stakes_of(txs) == Ok::<Seq<StakeView>, Failure>(Seq::empty()),
    ensures
        produced(validator, txs, blocks, ticket, timestamp) == (
            txs,
            blocks,
            Err::<BlockView, Failure>(not_elected()),
        ),
{
    address_has_66_digits(validator);
}

/// A block that was admitted is served again as it came: where its
/// transactions all carry its index and differ in their hashes, and the
/// set of its index held nothing, the block of that index with its
/// transactions is the block that was admitted. So a node that catches up
/// holds, for each block it was given, the peer's block and transactions.
pub proof fn admitted_block_is_served(txs: Store, blocks: Store, block: BlockView)
    requires
        block_added(txs, blocks, block).2.is_ok(),
        block.txs.is_some(),
        forall|i: int|
            0 <= i < block.txs.unwrap().len() ==> (#[trigger] block.txs.unwrap()[i]).block == Some(
                block.idx,
            ),
        distinct(hash_texts(block.txs.unwrap())),
        hashes_at(txs, tx_key(decimal_text(block.idx as nat))) == Lookup::Found(
            Seq::<Seq<char>>::empty(),
        ),
    ensures
        full_block(
            block_added(txs, blocks, block).0,
            block_added(txs, blocks, block).1,
            block.idx,
        ) == Ok::<Option<BlockView>, Failure>(Some(block)),
{
    saved_block_transactions_are_filed(txs, block.txs.unwrap(), block.idx);
    saved_block_is_found(blocks, block);
}

/// A block that was created on a well kept ledger, under an index whose set
/// held nothing, files exactly the transactions that were pending: the
/// block's transactions afterwards are those, one for one and in their
/// order, each with the block's index.
pub proof fn created_block_files_pending(
    validator: Wallet,
    txs: Store,
    blocks: Store,
    timestamp: u64,
)
    requires
        created(validator, txs, blocks, timestamp).2.is_ok(),
        kept(txs, blocks),
        hashes_at(
            txs,
            tx_key(decimal_text((created(validator, txs, blocks, timestamp).2->Ok_0).idx as nat)),
        ) == Lookup::Found(Seq::<Seq<char>>::empty()),
    ensures
        match (
            txs_under(txs, NO_BLOCK_IDX@),
            txs_under(
                created(validator, txs, blocks, timestamp).0,
                decimal_text((created(validator, txs, blocks, timestamp).2->Ok_0).idx as nat),
            ),
        ) {
            (Some(pending), Some(filed)) => filed.len() == pending.len() && forall|i: int|
                0 <= i < filed.len() ==> #[trigger] filed[i] == in_block(
                    pending[i],
                    (created(validator, txs, blocks, timestamp).2->Ok_0).idx,
                ),
            _ => false,
        },
{
    reveal(kept);
    let latest = latest_block(blocks)->Found_0;
    moving_all_pending_files_them(txs, (latest.idx + 1) as u64);
}

/// A block that was created on a sound ledger holds every transaction that
/// was pending, and leaves none pending.
pub proof fn created_block_takes_pending(
    validator: Wallet,
    txs: Store,
    blocks: Store,
    timestamp: u64,
)
    requires
        created(validator, txs, blocks, timestamp).2.is_ok(),
        sound(txs),
    ensures
        txs_under(txs, NO_BLOCK_IDX@).is_some(),
        (created(validator, txs, blocks, timestamp).2->Ok_0).txs == txs_under(txs, NO_BLOCK_IDX@),
        txs_under(created(validator, txs, blocks, timestamp).0, NO_BLOCK_IDX@) == Some(
            Seq::<TxView>::empty(),
        ),
{
    let latest = latest_block(blocks)->Found_0;
    assert(filed_or_unread(txs, NO_BLOCK_IDX@));
    moving_all_pending_leaves_none(txs, (latest.idx + 1) as u64);
}

} // verus!
