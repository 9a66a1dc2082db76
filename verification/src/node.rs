//! What a node does with the events that reach it: the requests of peers,
//! the messages of the two topics, the slot timer, and the blocks a peer
//! returns while the node catches up. The transport around it performs the
//! actions and hands back the events.

use crate::block::Block;
use crate::blockchain::added;
use crate::blockchain::block_added;
use crate::blockchain::block_verdict;
use crate::blockchain::full_block;
use crate::blockchain::index_exhausted;
use crate::blockchain::no_latest_block;
use crate::blockchain::produced;
use crate::blockchain::Blockchain;
use crate::error::unexpected_record;
use crate::error::Error;
use crate::error::ErrorKind;
use crate::error::Failure;
use crate::storage::block_storage::latest_block;
use crate::storage::kv::Lookup;
use crate::storage::nonce_storage::nonce_of;
use crate::storage::tx_storage::Store;
use crate::tx::Tx;
use vstd::prelude::*;

verus! {

/// The topic on which transactions are published.
pub const TX_TOPIC: &'static str = "txs";

/// The topic on which blocks are published.
pub const BLOCK_TOPIC: &'static str = "block";

/// The protocol by which a peer asks for a wallet's nonce.
pub const NONCE_PROTOCOL: &'static str = "/nonce/0.0.1";

/// The protocol by which a peer submits a transaction.
pub const TX_PROTOCOL: &'static str = "/tx/0.0.1";

/// The protocol by which a peer asks for a block.
pub const BLOCK_PROTOCOL: &'static str = "/block/0.0.1";

/// The seconds between two slots.
pub const SLOT_SECONDS: u64 = 12;

/// The seconds between two heartbeats of the gossip mesh.
pub const HEARTBEAT_SECONDS: u64 = 10;

/// A peer asks for the last nonce of a wallet.
#[derive(Debug)]
pub struct NonceRequest {
    pub address: String,
}

/// The last nonce of the wallet asked for.
#[derive(Debug)]
pub struct NonceResponse {
    pub nonce: u64,
}

/// The answer to a submitted transaction: no error where it was admitted.
#[derive(Debug)]
pub struct TxResponse {
    pub error: Option<String>,
}

/// A peer asks for the block of an index.
#[derive(Debug)]
pub struct BlockRequest {
    pub idx: u64,
}

/// The block asked for, where there is one.
#[derive(Debug)]
pub struct BlockResponse {
    pub block: Option<Block>,
}

/// What reaches the node.
#[derive(Debug)]
pub enum Event {
    /// The slot timer fired.
    Tick,
    /// A peer asked for a nonce.
    NonceRequested(NonceRequest),
    /// A peer submitted a transaction and waits for the answer.
    TxRequested(Tx),
    /// A peer asked for a block.
    BlockRequested(BlockRequest),
    /// A transaction was published on the transaction topic.
    TxReceived(Tx),
    /// A block was published on the block topic.
    BlockReceived(Block),
}

/// What the transport is to do after an event.
#[derive(Debug)]
pub enum Action {
    /// Nothing.
    Nothing,
    /// Answer the nonce request.
    RespondNonce(NonceResponse),
    /// Answer the submitter, and publish the transaction where it is given.
    RespondTx(TxResponse, Option<Tx>),
    /// Answer the block request.
    RespondBlock(BlockResponse),
    /// Publish the block on the block topic.
    PublishBlock(Block),
}

/// How catching up goes on.
#[derive(Debug)]
pub enum SyncStep {
    /// Ask the peer for this block next.
    Request(BlockRequest),
    /// The peer has no further block.
    Done,
}

/// The request for the block after the latest, as far as the ledger can
/// tell which that is.
pub open spec fn next_request(blocks: Store) -> Result<u64, Failure> {
    match latest_block(blocks) {
        Lookup::Found(latest) => if latest.idx == u64::MAX {
            Err(index_exhausted())
        } else {
            Ok((latest.idx + 1) as u64)
        },
        Lookup::Missing => Err(no_latest_block()),
        Lookup::Wrong => Err(unexpected_record()),
    }
}

/// Whether a slot with a given ticket and time took a ledger from one state
/// to another and gave the block, if any: the ledger changed as `produced`
/// says, and a block is there exactly where one was created.
pub open spec fn slot_outcome(
    before: Blockchain,
    after: Blockchain,
    block: Option<Block>,
    ticket: u64,
    timestamp: u64,
) -> bool {
    let slot = produced(before.validator(), before.txs(), before.blocks(), ticket, timestamp);
    &&& after.txs() == slot.0
    &&& after.blocks() == slot.1
    &&& match slot.2 {
        Ok(created) => block.is_some() && block.unwrap()@ == created,
        Err(_) => block.is_none(),
    }
}

/// The block that an action publishes.
pub open spec fn published(action: Action) -> Option<Block> {
    match action {
        Action::PublishBlock(block) => Some(block),
        _ => None,
    }
}

/// A node: the ledger behind the transport.
pub struct Node {
    blockchain: Blockchain,
}

impl Node {
    /// The node's ledger.
    pub closed spec fn ledger(&self) -> Blockchain {
        self.blockchain
    }

    /// A node over a ledger.
    pub fn new(blockchain: Blockchain) -> (node: Node)
        ensures
            node.ledger() == blockchain,
    {
        Node { blockchain }
    }

    /// The ledger.
    pub fn blockchain(&self) -> (blockchain: &Blockchain)
        ensures
            *blockchain == self.ledger(),
    {
        &self.blockchain
    }

    /// Answers a nonce request with the wallet's last nonce; there is no
    /// answer where the nonce cannot be read.
    pub fn on_nonce_request(&self, request: &NonceRequest) -> (response: Option<NonceResponse>)
        ensures
            match nonce_of(self.ledger().nonces(), request.address@) {
                Lookup::Found(nonce) => response.is_some() && response.unwrap().nonce == nonce,
                _ => response.is_none(),
            },
    {
        match self.blockchain.nonce(request.address.clone()) {
            Ok(nonce) => Some(NonceResponse { nonce }),
            Err(_) => None,
        }
    }

    /// Takes a submitted transaction to the ledger. Where it is admitted the
    /// answer carries no error and the transaction is handed back to be
    /// published; where it is not, the answer carries the rejection's
    /// message and nothing is published.
    pub fn on_tx_request(&mut self, tx: Tx) -> (reaction: (TxResponse, Option<Tx>))
        ensures
            old(self).ledger().well_kept() ==> final(self).ledger().well_kept(),
            final(self).ledger().validator() == old(self).ledger().validator(),
            final(self).ledger().blocks() == old(self).ledger().blocks(),
            final(self).ledger().txs() == added(
                old(self).ledger().txs(),
                old(self).ledger().nonces(),
                tx@,
            ).0,
            final(self).ledger().nonces() == added(
                old(self).ledger().txs(),
                old(self).ledger().nonces(),
                tx@,
            ).1,
            match added(old(self).ledger().txs(), old(self).ledger().nonces(), tx@).2 {
                Ok(_) => reaction.0.error.is_none() && reaction.1.is_some() && reaction.1.unwrap()
                    == tx,
                Err(failure) => reaction.0.error.is_some() && reaction.0.error.unwrap()@
                    == failure.1 && reaction.1.is_none(),
            },
    {
        match self.blockchain.add_tx(&tx) {
            Ok(_) => (TxResponse { error: None }, Some(tx)),
            Err(e) => (TxResponse { error: Some(e.message()) }, None),
        }
    }

    /// Answers a block request with the block and its transactions, or with
    /// no block where there is none; there is no answer where the block
    /// cannot be read.
    pub fn on_block_request(&self, request: &BlockRequest) -> (response: Option<BlockResponse>)
        ensures
            match full_block(self.ledger().txs(), self.ledger().blocks(), request.idx) {
                Ok(Some(block)) => response.is_some() && response.unwrap().block.is_some()
                    && response.unwrap().block.unwrap()@ == block,
                Ok(None) => response.is_some() && response.unwrap().block.is_none(),
                Err(_) => response.is_none(),
            },
    {
        match self.blockchain.find_block_by_idx(request.idx) {
            Ok(block) => Some(BlockResponse { block }),
            Err(_) => None,
        }
    }

    /// Takes a transaction from the transaction topic to the ledger. A
    /// rejection has nobody to go to and is dropped.
    pub fn on_tx_message(&mut self, tx: &Tx)
        ensures
            old(self).ledger().well_kept() ==> final(self).ledger().well_kept(),
            final(self).ledger().validator() == old(self).ledger().validator(),
            final(self).ledger().blocks() == old(self).ledger().blocks(),
            final(self).ledger().txs() == added(
                old(self).ledger().txs(),
                old(self).ledger().nonces(),
                tx@,
            ).0,
            final(self).ledger().nonces() == added(
                old(self).ledger().txs(),
                old(self).ledger().nonces(),
                tx@,
            ).1,
    {
        let _ = self.blockchain.add_tx(tx);
    }

    /// Takes a block from the block topic to the ledger. A failure has
    /// nobody to go to and is dropped.
    pub fn on_block_message(&mut self, block: &Block)
        ensures
            old(self).ledger().well_kept() ==> final(self).ledger().well_kept(),
            final(self).ledger().validator() == old(self).ledger().validator(),
            final(self).ledger().nonces() == old(self).ledger().nonces(),
            final(self).ledger().txs() == block_added(
                old(self).ledger().txs(),
                old(self).ledger().blocks(),
                block@,
            ).0,
            final(self).ledger().blocks() == block_added(
                old(self).ledger().txs(),
                old(self).ledger().blocks(),
                block@,
            ).1,
    {
        let _ = self.blockchain.add_block(block);
    }

    /// Runs a slot. Where this node's validator is elected the block it
    /// created is handed back to be published; otherwise the slot passes.
    /// The outcome is that of the slot for the ticket that the seed gave
    /// and the time of the call.
    pub fn on_tick(&mut self) -> (block: Option<Block>)
        ensures
            old(self).ledger().well_kept() ==> final(self).ledger().well_kept(),
            final(self).ledger().validator() == old(self).ledger().validator(),
            final(self).ledger().nonces() == old(self).ledger().nonces(),
            exists|ticket: u64, timestamp: u64|
                slot_outcome(old(self).ledger(), final(self).ledger(), block, ticket, timestamp),
    {
        let ghost validator = self.ledger().validator();
        let ghost txs = self.ledger().txs();
        let ghost blocks = self.ledger().blocks();
        let result = self.blockchain.proof_of_stake();
        let ghost (ticket, timestamp) = choose|ticket: u64, timestamp: u64|
            #![trigger produced(validator, txs, blocks, ticket, timestamp)]
            (self.ledger().txs(), self.ledger().blocks(), block_verdict(result)) == produced(
                validator,
                txs,
                blocks,
                ticket,
                timestamp,
            );
        assert(produced(validator, txs, blocks, ticket, timestamp).2 == block_verdict(result));
        let block = match result {
            Ok(block) => Some(block),
            Err(_) => None,
        };
        assert(slot_outcome(old(self).ledger(), self.ledger(), block, ticket, timestamp));
        block
    }

    /// Runs a slot for a given ticket and time. Where the ticket elects this
    /// node's validator the block it created is handed back to be
    /// published; otherwise the slot passes.
    pub fn on_tick_with(&mut self, ticket: u64, timestamp: u64) -> (block: Option<Block>)
        ensures
            old(self).ledger().well_kept() ==> final(self).ledger().well_kept(),
            final(self).ledger().validator() == old(self).ledger().validator(),
            final(self).ledger().nonces() == old(self).ledger().nonces(),
            slot_outcome(old(self).ledger(), final(self).ledger(), block, ticket, timestamp),
    {
        match self.blockchain.proof_of_stake_with(ticket, timestamp) {
            Ok(block) => Some(block),
            Err(_) => None,
        }
    }

    /// Decides what follows an event: each kind of event goes to its
    /// handler, and what the handler returns becomes the action.
    pub fn handle(&mut self, event: Event) -> (action: Action)
        ensures
            old(self).ledger().well_kept() ==> final(self).ledger().well_kept(),
            final(self).ledger().validator() == old(self).ledger().validator(),
            match event {
                Event::Tick => {
                    &&& final(self).ledger().nonces() == old(self).ledger().nonces()
                    &&& action is PublishBlock || action is Nothing
                    &&& exists|ticket: u64, timestamp: u64|
                        slot_outcome(
                            old(self).ledger(),
                            final(self).ledger(),
                            published(action),
                            ticket,
                            timestamp,
                        )
                },
                Event::NonceRequested(request) => {
                    &&& final(self).ledger() == old(self).ledger()
                    &&& match nonce_of(old(self).ledger().nonces(), request.address@) {
                        Lookup::Found(nonce) => action matches Action::RespondNonce(response)
                            && response.nonce == nonce,
                        _ => action is Nothing,
                    }
                },
                Event::TxRequested(tx) => {
                    &&& final(self).ledger().blocks() == old(self).ledger().blocks()
                    &&& final(self).ledger().txs() == added(
                        old(self).ledger().txs(),
                        old(self).ledger().nonces(),
                        tx@,
                    ).0
                    &&& final(self).ledger().nonces() == added(
                        old(self).ledger().txs(),
                        old(self).ledger().nonces(),
                        tx@,
                    ).1
                    &&& match added(old(self).ledger().txs(), old(self).ledger().nonces(), tx@).2 {
                        Ok(_) => action matches Action::RespondTx(response, publish)
                            && response.error.is_none() && publish == Some(tx),
                        Err(failure) => action matches Action::RespondTx(response, publish)
                            && response.error.is_some() && response.error.unwrap()@ == failure.1
                            && publish.is_none(),
                    }
                },
                Event::BlockRequested(request) => {
                    &&& final(self).ledger() == old(self).ledger()
                    &&& match full_block(
                        old(self).ledger().txs(),
                        old(self).ledger().blocks(),
                        request.idx,
                    ) {
                        Ok(Some(block)) => action matches Action::RespondBlock(response)
                            && response.block.is_some() && response.block.unwrap()@ == block,
                        Ok(None) => action matches Action::RespondBlock(response)
                            && response.block.is_none(),
                        Err(_) => action is Nothing,
                    }
                },
                Event::TxReceived(tx) => {
                    &&& action is Nothing
                    &&& final(self).ledger().blocks() == old(self).ledger().blocks()
                    &&& final(self).ledger().txs() == added(
                        old(self).ledger().txs(),
                        old(self).ledger().nonces(),
                        tx@,
                    ).0
                    &&& final(self).ledger().nonces() == added(
                        old(self).ledger().txs(),
                        old(self).ledger().nonces(),
                        tx@,
                    ).1
                },
                Event::BlockReceived(block) => {
                    &&& action is Nothing
                    &&& final(self).ledger().nonces() == old(self).ledger().nonces()
                    &&& final(self).ledger().txs() == block_added(
                        old(self).ledger().txs(),
                        old(self).ledger().blocks(),
                        block@,
                    ).0
                    &&& final(self).ledger().blocks() == block_added(
                        old(self).ledger().txs(),
                        old(self).ledger().blocks(),
                        block@,
                    ).1
                },
            },
    {
        match event {
            Event::Tick => {
                let block = self.on_tick();
                let ghost (ticket, timestamp) = choose|ticket: u64, timestamp: u64|
                    slot_outcome(old(self).ledger(), self.ledger(), block, ticket, timestamp);
                let action = match block {
                    Some(block) => Action::PublishBlock(block),
                    None => Action::Nothing,
                };
                assert(slot_outcome(
                    old(self).ledger(),
                    self.ledger(),
                    published(action),
                    ticket,
                    timestamp,
                ));
                action
            },
            Event::NonceRequested(request) => match self.on_nonce_request(&request) {
                Some(response) => Action::RespondNonce(response),
                None => Action::Nothing,
            },
            Event::TxRequested(tx) => {
                let (response, publish) = self.on_tx_request(tx);
                Action::RespondTx(response, publish)
            },
            Event::BlockRequested(request) => match self.on_block_request(&request) {
                Some(response) => Action::RespondBlock(response),
                None => Action::Nothing,
            },
            Event::TxReceived(tx) => {
                self.on_tx_message(&tx);
                Action::Nothing
            },
            Event::BlockReceived(block) => {
                self.on_block_message(&block);
                Action::Nothing
            },
        }
    }

    /// Begins catching up: the request for the block after the latest. It
    /// fails with `NotFound` exactly where the ledger has no latest block,
    /// with `InvalidInput` exactly where the latest index is the last there
    /// is, and with `Storage` exactly where the latest block cannot be read.
    pub fn sync_start(&self) -> (result: Result<BlockRequest, Error>)
        ensures
            match next_request(self.ledger().blocks()) {
                Ok(idx) => result.is_ok() && result.unwrap().idx == idx,
                Err(failure) => result.is_err() && result.unwrap_err().failure() == failure,
            },
    {
        let latest = match self.blockchain.find_latest() {
            Ok(latest) => latest,
            Err(e) => { return Err(e); },
        };
        if latest.idx == u64::MAX {
            return Err(Error::new(ErrorKind::InvalidInput, "Block index exhausted"));
        }
        Ok(BlockRequest { idx: latest.idx + 1 })
    }

    /// Goes on catching up with what the peer returned. Without a block the
    /// node has caught up. With one, the block is admitted, and the request
    /// for the block after the latest follows; a failure of either ends
    /// catching up with that failure.
    pub fn sync_step(&mut self, response: Option<Block>) -> (result: Result<SyncStep, Error>)
        ensures
            old(self).ledger().well_kept() ==> final(self).ledger().well_kept(),
            final(self).ledger().validator() == old(self).ledger().validator(),
            final(self).ledger().nonces() == old(self).ledger().nonces(),
            match response {
                None => final(self).ledger() == old(self).ledger() && result.is_ok()
                    && result.unwrap() is Done,
                Some(block) => {
                    let admitted = block_added(
                        old(self).ledger().txs(),
                        old(self).ledger().blocks(),
                        block@,
                    );
                    &&& final(self).ledger().txs() == admitted.0
                    &&& final(self).ledger().blocks() == admitted.1
                    &&& match admitted.2 {
                        Err(failure) => result.is_err() && result.unwrap_err().failure()
                            == failure,
                        Ok(_) => match next_request(admitted.1) {
                            Ok(idx) => result.is_ok() && (result.unwrap() matches SyncStep::Request(
                                request,
                            ) && request.idx == idx),
                            Err(failure) => result.is_err() && result.unwrap_err().failure()
                                == failure,
                        },
                    }
                },
            },
    {
        match response {
            None => Ok(SyncStep::Done),
            Some(block) => {
                match self.blockchain.add_block(&block) {
                    Ok(_) => {},
                    Err(e) => { return Err(e); },
                }
                match self.sync_start() {
                    Ok(request) => Ok(SyncStep::Request(request)),
                    Err(e) => Err(e),
                }
            },
        }
    }
}

} // verus!
