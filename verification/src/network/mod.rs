//! What nodes say to each other, and how a node keeps track of its peers,
//! of the state it is fetching, and of the blocks it votes on.

pub mod consensus;
pub mod message;
pub mod peer;
pub mod sync;

use crate::network::consensus::{ConsensusConfig, ConsensusEngine, ConsensusStatus};
use crate::network::message::{Message, MessageType};
use crate::network::peer::{PeerInfo, PeerStatus};
use crate::network::sync::{StateRequest, StateSync, SyncStatus};
use vstd::prelude::*;

verus! {

/// Why the network layer gave up.
#[derive(Debug)]
pub enum NetworkError {
    ConnectionFailed(String),
    MessageError(String),
    PeerError(String),
    SyncError(String),
    ConsensusError(String),
}

pub enum NetworkErrorView {
    ConnectionFailed(Seq<char>),
    MessageError(Seq<char>),
    PeerError(Seq<char>),
    SyncError(Seq<char>),
    ConsensusError(Seq<char>),
}

impl View for NetworkError {
    type V = NetworkErrorView;

    open spec fn view(&self) -> NetworkErrorView {
        match self {
            NetworkError::ConnectionFailed(s) => NetworkErrorView::ConnectionFailed(s@),
            NetworkError::MessageError(s) => NetworkErrorView::MessageError(s@),
            NetworkError::PeerError(s) => NetworkErrorView::PeerError(s@),
            NetworkError::SyncError(s) => NetworkErrorView::SyncError(s@),
            NetworkError::ConsensusError(s) => NetworkErrorView::ConsensusError(s@),
        }
    }
}

/// The settings of a node.
#[derive(Debug)]
pub struct NetworkConfig {
    pub listen_addr: String,
    pub bootstrap_peers: Vec<String>,
    pub max_peers: usize,
    pub ping_interval_secs: u64,
    pub sync_batch_size: usize,
    pub consensus_config: ConsensusConfig,
}

/// What a node decides on what the network brings: who is connected, and
/// where messages go.
#[derive(Debug)]
pub struct NetworkManager {
    pub peers: Vec<PeerInfo>,
    pub state_sync: StateSync,
    pub consensus: ConsensusEngine,
    pub max_peers: usize,
}

impl NetworkManager {
    /// A node without peers, at the time `now` in seconds.
    pub fn new(config: &NetworkConfig, now: u64) -> (r: Self)
        ensures
            r.peers@.len() == 0,
            r.max_peers == config.max_peers,
            r.state_sync.batch_size == config.sync_batch_size,
            r.state_sync.sync_state.status@ == crate::network::sync::SyncStatusView::Idle,
            r.consensus.config == config.consensus_config,
            r.consensus.state.current_round == 0,
    {
        NetworkManager {
            peers: Vec::new(),
            state_sync: StateSync::new(config.sync_batch_size, now),
            consensus: ConsensusEngine::new(config.consensus_config, now),
            max_peers: config.max_peers,
        }
    }

    /// Takes a connected peer in at the time `now`, and begins to
    /// synchronise with it. A full node refuses, and nothing changes.
    pub fn handle_peer_connected(&mut self, peer: u64, now: u64) -> (r: Result<(), NetworkError>)
        ensures
            final(self).max_peers == old(self).max_peers,
            final(self).consensus == old(self).consensus,
            match r {
                Ok(()) => old(self).peers@.len() < old(self).max_peers && final(self).peers@.len()
                    <= old(self).peers@.len() + 1 && (exists|i: int|
                    0 <= i < final(self).peers@.len() && #[trigger] final(self).peers@[i]
                        == (PeerInfo { id: peer, status: PeerStatus::Connected, last_seen: now })),
                Err(e) => e@ == NetworkErrorView::PeerError("Max peers reached"@)
                    && old(self).peers@.len() >= old(self).max_peers && final(self).peers
                    == old(self).peers
                    && final(self).state_sync == old(self).state_sync,
            },
    {
        if self.peers.len() >= self.max_peers {
            return Err(NetworkError::PeerError("Max peers reached".to_string()));
        }
        let info = PeerInfo { id: peer, status: PeerStatus::Connected, last_seen: now };
        let mut i: usize = 0;
        let mut found = false;
        let ghost mut place: int = 0;
        while i < self.peers.len() && !found
            invariant
                i <= self.peers.len(),
                self.max_peers == old(self).max_peers,
                self.consensus == old(self).consensus,
                self.state_sync == old(self).state_sync,
                self.peers@.len() == old(self).peers@.len(),
                found ==> 0 <= place < self.peers@.len() && self.peers@[place] == info,
            decreases self.peers.len() - i + (if found { 0int } else { 1int }),
        {
            if self.peers[i].id == peer {
                self.peers[i] = info;
                proof {
                    place = i as int;
                }
                found = true;
            } else {
                i += 1;
            }
        }
        if !found {
            self.peers.push(info);
            proof {
                place = self.peers@.len() - 1;
            }
        }
        let ghost peers = self.peers@;
        let r = self.state_sync.start_sync(peer, now);
        assert(self.peers@ == peers);
        assert(self.peers@[place] == info);
        r
    }

    /// Lets a peer go: it is a peer no more, and what it worked on waits
    /// again.
    pub fn handle_peer_disconnected(&mut self, peer: u64) -> (r: Result<(), NetworkError>)
        ensures
            r is Ok,
            final(self).max_peers == old(self).max_peers,
            final(self).consensus == old(self).consensus,
            final(self).peers@ == old(self).peers@.filter(|p: PeerInfo| p.id != peer),
    {
        let ghost pred = |p: PeerInfo| p.id != peer;
        let mut kept: Vec<PeerInfo> = Vec::new();
        let mut i: usize = 0;
        while i < self.peers.len()
            invariant
                i <= self.peers.len(),
                self.max_peers == old(self).max_peers,
                self.consensus == old(self).consensus,
                self.state_sync == old(self).state_sync,
                self.peers == old(self).peers,
                pred == (|p: PeerInfo| p.id != peer),
                kept@ == self.peers@.take(i as int).filter(pred),
            decreases self.peers.len() - i,
        {
            proof {
                let prefix = self.peers@.take(i + 1);
                assert(prefix.drop_last() =~= self.peers@.take(i as int));
                reveal(Seq::filter);
            }
            if self.peers[i].id != peer {
                kept.push(self.peers[i]);
            }
            i += 1;
        }
        assert(self.peers@.take(self.peers.len() as int) =~= self.peers@);
        self.peers = kept;
        self.state_sync.handle_peer_disconnected(peer)
    }

    /// Hands a message to the part that it is for, at the time `now`:
    /// blocks and transactions to the consensus engine, requests for state
    /// and their answers to the synchronisation. Other messages change
    /// nothing.
    pub fn handle_message(&mut self, message: Message, now: u64) -> (r: Result<(), NetworkError>)
        ensures
            final(self).max_peers == old(self).max_peers,
            final(self).peers == old(self).peers,
            match message.message_type {
                MessageType::Block(block) => r is Ok && final(self).state_sync
                    == old(self).state_sync && final(self).consensus.state.pending_blocks@
                    == old(self).consensus.state.pending_blocks@.push(block),
                MessageType::Transaction(tx) => r is Ok && final(self).state_sync
                    == old(self).state_sync && final(self).consensus.state.pending_transactions@
                    == old(self).consensus.state.pending_transactions@.push(tx),
                MessageType::StateRequest(_) => final(self).consensus == old(self).consensus,
                MessageType::StateResponse(_) => final(self).consensus == old(self).consensus,
                _ => r is Ok && final(self).state_sync == old(self).state_sync
                    && final(self).consensus == old(self).consensus,
            },
    {
        match message.message_type {
            MessageType::Block(block) => self.consensus.process_block(block),
            MessageType::Transaction(tx) => self.consensus.process_transaction(tx),
            MessageType::StateRequest(request) => {
                let request = StateRequest {
                    block_number: request.block_number,
                    account: request.account,
                    storage_keys: request.storage_keys,
                    timestamp: now,
                };
                self.state_sync.handle_request(request, now)
            },
            MessageType::StateResponse(response) => {
                let request = StateRequest {
                    block_number: response.block_number,
                    account: response.account,
                    storage_keys: response.storage_keys,
                    timestamp: now,
                };
                self.state_sync.handle_response(request, now)
            },
            _ => Ok(()),
        }
    }

    /// The peers, in the order in which they connected.
    pub fn get_peers(&self) -> (r: Vec<PeerInfo>)
        ensures
            r@ == self.peers@,
    {
        let mut r: Vec<PeerInfo> = Vec::new();
        let mut i: usize = 0;
        while i < self.peers.len()
            invariant
                i <= self.peers.len(),
                r@ == self.peers@.take(i as int),
            decreases self.peers.len() - i,
        {
            r.push(self.peers[i]);
            i += 1;
            assert(r@ =~= self.peers@.take(i as int));
        }
        assert(self.peers@.take(self.peers.len() as int) =~= self.peers@);
        r
    }

    /// Where the synchronisation stands.
    pub fn get_sync_status(&self) -> (r: SyncStatus)
        ensures
            r@ == self.state_sync.sync_state.status@,
    {
        self.state_sync.get_status()
    }

    /// Where the consensus engine stands at the time `now`.
    pub fn get_consensus_status(&self, now: u64) -> (r: ConsensusStatus)
        ensures
            r.height == self.consensus.state.current_height,
            r.round == self.consensus.state.current_round,
            r.pending_transactions == self.consensus.state.pending_transactions@.len(),
            r.pending_blocks == self.consensus.state.pending_blocks@.len(),
            r.active_validators == self.consensus.state.validators@.len(),
    {
        self.consensus.get_status(now)
    }
}

} // verus!
