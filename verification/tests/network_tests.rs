use zkvm::memory::segment::SegmentType;
use zkvm::memory::{MemoryAddress, MemoryConfig, MemoryError, MemoryManager};
use zkvm::network::consensus::{ConsensusConfig, ConsensusEngine, ValidatorInfo};
use zkvm::network::message::{Block, BlockHeader, Message, MessageType, StateRequest as WireRequest, Transaction};
use zkvm::network::peer::{Peer, PeerCapabilities, PeerManager, PeerStatus};
use zkvm::network::sync::{StateRequest, StateSync, SyncStatus};
use zkvm::network::{NetworkConfig, NetworkError, NetworkManager};

#[test]
fn test_peer_reputation() {
    let mut peer = Peer::new(1, 0);

    peer.update_reputation(50);
    assert_eq!(peer.reputation, 50);

    peer.update_reputation(-150);
    assert_eq!(peer.reputation, -100);
    assert!(peer.is_banned());
}

#[test]
fn test_peer_manager() {
    let mut manager = PeerManager::new(2);

    let peer1 = Peer::new(1, 0);
    let peer2 = Peer::new(2, 0);
    let peer3 = Peer::new(3, 0);

    assert!(manager.add_peer(peer1).is_ok());
    assert!(manager.add_peer(peer2).is_ok());
    assert!(manager.add_peer(peer3).is_err()); // Max peers reached

    assert_eq!(manager.get_peers().len(), 2);
}

#[test]
fn reputation_stays_within_bounds() {
    let mut peer = Peer::new(1, 0);
    peer.update_reputation(i32::MAX);
    peer.update_reputation(5);
    assert_eq!(peer.reputation, i32::MAX);
    assert!(!peer.is_banned());
    peer.update_reputation(i32::MIN);
    peer.update_reputation(i32::MIN);
    assert_eq!(peer.reputation, i32::MIN);
    assert!(peer.is_banned());
    let mut peer = Peer::new(2, 0);
    peer.update_reputation(-99);
    assert!(!peer.is_banned());
    peer.update_reputation(-1);
    assert!(peer.is_banned());
}

#[test]
fn ping_statistics_follow_the_latencies() {
    let mut peer = Peer::new(1, 1000);
    peer.update_pong(1500);
    assert_eq!(peer.ping_stats.last_pong, Some(1500));
    assert_eq!(peer.ping_stats.avg_latency, None);
    peer.update_ping(2000);
    peer.update_pong(2030);
    assert_eq!(peer.ping_stats.min_latency, Some(30));
    assert_eq!(peer.ping_stats.max_latency, Some(30));
    assert_eq!(peer.ping_stats.avg_latency, Some(30));
    peer.update_ping(3000);
    peer.update_pong(3011);
    assert_eq!(peer.ping_stats.ping_count, 2);
    assert_eq!(peer.ping_stats.min_latency, Some(11));
    assert_eq!(peer.ping_stats.max_latency, Some(30));
    assert_eq!(peer.ping_stats.avg_latency, Some(20)); // (30 * 1 + 11) / 2
    peer.update_ping(4000);
    peer.update_pong(3990); // the clock went back
    assert_eq!(peer.ping_stats.min_latency, Some(0));
    assert_eq!(peer.ping_stats.avg_latency, Some(13)); // (20 * 2 + 0) / 3
    assert_eq!(peer.connection_duration(4000), 3000);
    assert_eq!(peer.connection_duration(10), 0);
    assert_eq!(peer.last_seen_duration(1250), 250);
}

#[test]
fn peers_are_synced_once_they_have_a_head() {
    let mut peer = Peer::new(1, 0);
    assert!(!peer.is_synced());
    peer.update_capabilities(PeerCapabilities {
        protocols: vec!["zkvm/1".to_string()],
        version: 1,
        chain_id: 7,
        head_block: 12,
        total_difficulty: 0,
    });
    assert!(peer.is_synced());
    peer.info.status = PeerStatus::Syncing;
    assert!(!peer.is_synced());
}

#[test]
fn banned_peers_stay_out() {
    let mut manager = PeerManager::new(3);
    assert!(manager.add_peer(Peer::new(1, 0)).is_ok());
    assert!(manager.add_peer(Peer::new(2, 0)).is_ok());
    manager.ban_peer(1);
    manager.ban_peer(1);
    assert!(manager.is_banned(1));
    assert_eq!(manager.peer_count(), 1);
    assert_eq!(manager.add_peer(Peer::new(1, 5)), Err("Peer is banned"));
    manager.unban_peer(1);
    assert!(!manager.is_banned(1));
    assert!(manager.add_peer(Peer::new(1, 5)).is_ok());
    assert_eq!(manager.get_peer(1).unwrap().connection_time, 5);
    assert!(manager.get_peer(9).is_none());
    // a peer that is added again takes the place of the old one
    assert!(manager.add_peer(Peer::new(2, 9)).is_ok());
    assert_eq!(manager.peer_count(), 2);
    assert_eq!(manager.get_peers()[0].connection_time, 9);
    assert!(manager.add_peer(Peer::new(3, 0)).is_ok());
    assert_eq!(manager.add_peer(Peer::new(4, 0)), Err("Max peers reached"));
    manager.remove_peer(3);
    manager.remove_peer(3);
    assert_eq!(manager.peer_count(), 2);
}

#[test]
fn disconnected_peers_are_cleaned_up() {
    let mut manager = PeerManager::new(10);
    for id in 1..=5 {
        manager.add_peer(Peer::new(id, 0)).unwrap();
    }
    manager.update_peer_status(2, PeerStatus::Disconnected);
    manager.update_peer_status(4, PeerStatus::Disconnected);
    manager.update_peer_status(5, PeerStatus::Syncing);
    manager.update_peer_status(9, PeerStatus::Disconnected);
    assert_eq!(manager.synced_count(), 0);
    assert!(manager.get_synced_peers().is_empty());
    manager.cleanup_disconnected_peers();
    let ids: Vec<u64> = manager.get_peers().iter().map(|p| p.info.id).collect();
    assert_eq!(ids, vec![1, 3, 5]);
    assert_eq!(manager.get_peer(5).unwrap().info.status, PeerStatus::Syncing);
}

fn validator(name: &str, stake: u64) -> ValidatorInfo {
    ValidatorInfo { address: name.to_string(), stake, last_proposed: 0, total_proposed: 0, total_validated: 0 }
}

fn transaction(nonce: u64) -> Transaction {
    Transaction {
        nonce,
        from: "sender".to_string(),
        to: "receiver".to_string(),
        value: 100,
        data: vec![],
        signature: None,
    }
}

#[test]
fn test_consensus_flow() {
    let config = ConsensusConfig::default();
    let mut consensus = ConsensusEngine::new(config, 0);

    consensus.state.validators.push(validator("validator1", 1000));

    consensus.process_transaction(transaction(0)).unwrap();

    let block = consensus.process_round(10).unwrap();

    let status = consensus.get_status(25);
    assert_eq!(status.round, 1);
    assert_eq!(status.pending_transactions, 0);
    assert_eq!(status.active_validators, 1);
    assert_eq!(status.last_finalized_time, 25);
    assert_eq!(block.header.author, "validator1");
    assert_eq!(block.header.number, 1);
    assert_eq!(block.header.timestamp, 10);
    assert_eq!(block.transactions.len(), 1);
    assert_eq!(block.header.transactions_root.bytes, block.compute_transactions_root().bytes);
    assert_eq!(block.header.parent_hash.bytes, zkvm::crypto::Hash::default().bytes);
}

#[test]
fn test_validator_selection() {
    let config = ConsensusConfig::default();
    let mut consensus = ConsensusEngine::new(config, 0);

    for i in 1..=3 {
        consensus.state.validators.push(validator(&format!("validator{}", i), 1000));
    }

    let proposer = consensus.select_proposer().unwrap();
    assert!(proposer.starts_with("validator"));
    assert_eq!(proposer, "validator1");
}

#[test]
fn proposer_is_drawn_by_stake() {
    let mut consensus = ConsensusEngine::new(ConsensusConfig::default(), 0);
    assert!(matches!(consensus.select_proposer(), Err(NetworkError::ConsensusError(_))));
    consensus.state.validators.push(validator("a", 1));
    consensus.state.validators.push(validator("b", 1));
    consensus.state.validators.push(validator("c", 5));
    // total stake 7, three validators: the ticket is (round * 7) % 3
    consensus.state.current_round = 1; // ticket 1: falls on b
    assert_eq!(consensus.select_proposer().unwrap(), "b");
    consensus.state.current_round = 2; // ticket 2: falls on c
    assert_eq!(consensus.select_proposer().unwrap(), "c");
    consensus.state.current_round = 3; // ticket 0: falls on a
    assert_eq!(consensus.select_proposer().unwrap(), "a");
    // a ticket beyond every stake falls on nobody
    consensus.state.validators.clear();
    consensus.state.validators.push(validator("a", 0));
    consensus.state.validators.push(validator("b", 1));
    consensus.state.current_round = 1; // ticket 1
    assert!(consensus.select_proposer().is_err());
}

#[test]
fn blocks_take_what_fits() {
    let size = transaction(0).encoded_len();
    assert_eq!(size, 8 + (8 + 6) + (8 + 8) + 8 + 8 + 1);
    let mut config = ConsensusConfig::default();
    config.max_block_size = 2 * size + 1;
    let mut consensus = ConsensusEngine::new(config, 0);
    for nonce in 0..5 {
        consensus.process_transaction(transaction(nonce)).unwrap();
    }
    let block = consensus.create_block(&"me".to_string(), 3).unwrap();
    let nonces: Vec<u64> = block.transactions.iter().map(|t| t.nonce).collect();
    assert_eq!(nonces, vec![0, 1]);
    assert_eq!(consensus.state.pending_transactions.len(), 3);
    assert_eq!(consensus.state.pending_transactions[0].nonce, 2);
}

#[test]
fn votes_make_blocks_final() {
    let mut consensus = ConsensusEngine::new(ConsensusConfig::default(), 0);
    for name in ["a", "b", "c"] {
        consensus.state.validators.push(validator(name, 1000));
    }
    consensus.state.validators.push(validator("poor", 999));
    let block = Block {
        header: BlockHeader {
            parent_hash: zkvm::crypto::Hash::default(),
            timestamp: 1,
            number: 1,
            author: "a".to_string(),
            transactions_root: zkvm::crypto::Hash::default(),
            state_root: zkvm::crypto::Hash::default(),
            receipts_root: zkvm::crypto::Hash::default(),
        },
        transactions: vec![],
        state_root: zkvm::crypto::Hash::default(),
        receipts_root: zkvm::crypto::Hash::default(),
    };
    let hash = block.hash();
    consensus.process_block(block).unwrap();
    assert!(matches!(consensus.submit_vote("poor".to_string(), hash, 5), Err(NetworkError::ConsensusError(_))));
    assert!(matches!(consensus.submit_vote("nobody".to_string(), hash, 5), Err(NetworkError::ConsensusError(_))));
    consensus.submit_vote("a".to_string(), hash, 5).unwrap();
    consensus.submit_vote("a".to_string(), hash, 6).unwrap();
    consensus.submit_vote("b".to_string(), hash, 7).unwrap();
    // two of four are not more than two thirds
    assert_eq!(consensus.state.finalized_blocks.len(), 0);
    consensus.submit_vote("c".to_string(), hash, 8).unwrap();
    assert_eq!(consensus.state.finalized_blocks.len(), 1);
    assert_eq!(consensus.state.pending_blocks.len(), 0);
    assert_eq!(consensus.state.last_finalized_time, 8);
    assert!(consensus.check_finalization(68).is_ok());
    assert!(matches!(consensus.check_finalization(69), Err(NetworkError::ConsensusError(_))));
    assert!(consensus.check_consensus(3, 4));
    assert!(!consensus.check_consensus(2, 3));
    assert!(consensus.check_consensus(usize::MAX, usize::MAX));
    assert!(consensus.is_valid_validator(&"a".to_string()));
    assert!(!consensus.is_valid_validator(&"poor".to_string()));
}

#[test]
fn cleanup_keeps_the_newest_transactions() {
    let mut consensus = ConsensusEngine::new(ConsensusConfig::default(), 0);
    for nonce in 0..10003 {
        consensus.state.pending_transactions.push(transaction(nonce));
    }
    consensus.cleanup().unwrap();
    assert_eq!(consensus.state.pending_transactions.len(), 10000);
    assert_eq!(consensus.state.pending_transactions[0].nonce, 3);
    consensus.cleanup().unwrap();
    assert_eq!(consensus.state.pending_transactions.len(), 10000);
}

fn request(block_number: u64, timestamp: u64) -> StateRequest {
    StateRequest { block_number, account: "test".to_string(), storage_keys: vec![], timestamp }
}

#[test]
fn test_sync_flow() {
    let mut sync = StateSync::new(10, 1000);
    let peer_id = 7;

    sync.start_sync(peer_id, 1000).unwrap();
    assert!(matches!(sync.get_status(), SyncStatus::Syncing { .. }));

    sync.handle_request(request(1, 1000), 1000).unwrap();
    assert!(matches!(sync.get_status(), SyncStatus::Syncing { current_block: 0, target_block: 0, peers: 1 }));
    assert_eq!(sync.sync_state.pending_requests[0].requests.len(), 1);

    sync.handle_response(request(1, 1001), 1001).unwrap();

    assert!(matches!(sync.get_status(), SyncStatus::Idle));
    assert_eq!(sync.sync_state.completed_requests.len(), 1);
    assert_eq!(sync.sync_state.last_progress, 1001);
}

#[test]
fn test_sync_timeout() {
    let mut sync = StateSync::new(10, 1000);
    let peer_id = 7;

    sync.start_sync(peer_id, 1000).unwrap();
    sync.sync_state.last_progress = 1000 - 301;

    sync.handle_request(request(1, 1000 - 31), 1000).unwrap();

    match sync.get_status() {
        SyncStatus::Error(text) => assert_eq!(text, "Sync timed out"),
        other => panic!("Expected error status, found {:?}", other),
    }
}

#[test]
fn requests_that_time_out_are_retried_and_then_fail() {
    let mut sync = StateSync::new(1, 0);
    sync.start_sync(1, 0).unwrap();
    sync.handle_request(request(1, 0), 0).unwrap();
    // the peer's queue is full: the next request waits
    sync.handle_request(request(2, 0), 0).unwrap();
    assert_eq!(sync.sync_state.sync_queue.len(), 1);
    assert_eq!(sync.sync_state.pending_requests[0].requests[0].block_number, 1);
    // after 31 seconds the first request has timed out; it waits behind the second
    sync.check_timeouts(31).unwrap();
    assert_eq!(sync.sync_state.pending_requests[0].requests.len(), 0);
    assert_eq!(sync.retries_of(&request(1, 99)), 1);
    assert_eq!(sync.retries_of(&request(2, 99)), 0);
    let blocks: Vec<u64> = sync.sync_state.sync_queue.iter().map(|r| r.block_number).collect();
    assert_eq!(blocks, vec![2, 1]);
    sync.sync_state.failed_requests[0].retries = 3;
    sync.sync_state.sync_queue.remove(0);
    match sync.process_sync_queue(31) {
        Err(NetworkError::SyncError(text)) => assert_eq!(text, "Request failed after 3 retries"),
        other => panic!("Expected sync error, found {:?}", other),
    }
}

#[test]
fn disconnected_peer_gives_its_work_back() {
    let mut sync = StateSync::new(5, 0);
    sync.start_sync(1, 0).unwrap();
    sync.start_sync(2, 0).unwrap();
    sync.start_sync(1, 0).unwrap();
    assert_eq!(sync.sync_state.pending_requests.len(), 2);
    sync.handle_request(request(1, 0), 0).unwrap();
    sync.handle_request(request(2, 0), 0).unwrap();
    assert_eq!(sync.sync_state.pending_requests[0].requests.len(), 2);
    sync.handle_peer_disconnected(1).unwrap();
    assert_eq!(sync.sync_state.pending_requests.len(), 1);
    assert_eq!(sync.sync_state.sync_queue.len(), 2);
    assert!(matches!(sync.get_status(), SyncStatus::Syncing { peers: 0, .. }));
    sync.handle_peer_disconnected(9).unwrap();
    sync.process_sync_queue(0).unwrap();
    assert_eq!(sync.sync_state.pending_requests[0].peer, 2);
    assert_eq!(sync.sync_state.pending_requests[0].requests.len(), 2);
}

fn node() -> NetworkManager {
    let config = NetworkConfig {
        listen_addr: "127.0.0.1:0".to_string(),
        bootstrap_peers: vec![],
        max_peers: 2,
        ping_interval_secs: 30,
        sync_batch_size: 1000,
        consensus_config: ConsensusConfig::default(),
    };
    NetworkManager::new(&config, 0)
}

#[test]
fn node_takes_peers_up_to_its_limit() {
    let mut node = node();
    node.handle_peer_connected(1, 10).unwrap();
    node.handle_peer_connected(2, 11).unwrap();
    assert!(matches!(node.handle_peer_connected(3, 12), Err(NetworkError::PeerError(_))));
    assert_eq!(node.get_peers().len(), 2);
    assert!(matches!(node.get_sync_status(), SyncStatus::Syncing { .. }));
    node.handle_peer_disconnected(1).unwrap();
    let peers = node.get_peers();
    assert_eq!(peers.len(), 1);
    assert_eq!(peers[0].id, 2);
    assert_eq!(peers[0].last_seen, 11);
}

#[test]
fn node_hands_messages_on() {
    let mut node = node();
    node.handle_peer_connected(1, 0).unwrap();
    node.handle_message(Message::new(MessageType::Transaction(transaction(4)), "peer".to_string()), 1).unwrap();
    node.handle_message(Message::new(MessageType::Ping, "peer".to_string()), 1).unwrap();
    let wire = WireRequest { block_number: 5, account: "acct".to_string(), storage_keys: vec![] };
    node.handle_message(Message::new(MessageType::StateRequest(wire), "peer".to_string()), 2).unwrap();
    let status = node.get_consensus_status(3);
    assert_eq!(status.pending_transactions, 1);
    assert_eq!(status.pending_blocks, 0);
    assert_eq!(node.state_sync.sync_state.pending_requests[0].requests.len(), 1);
    assert_eq!(node.state_sync.sync_state.pending_requests[0].requests[0].timestamp, 2);
}

fn manager() -> MemoryManager {
    MemoryManager::new(MemoryConfig { page_size: 16, gc_threshold: 1024, cache_size: 2 })
}

#[test]
fn memory_is_allocated_written_and_read() {
    let mut memory = manager();
    let a = memory.allocate(40, SegmentType::Data).unwrap();
    assert_eq!(a, MemoryAddress::new(0, 0, 0));
    let b = memory.allocate(8, SegmentType::Heap).unwrap();
    assert_eq!(b, MemoryAddress::new(1, 3, 0));
    assert_eq!(memory.statistics().total_allocations, 2);
    assert_eq!(memory.write(a, &[1, 2, 3]), Ok(()));
    assert_eq!(memory.read(a, 4), Ok(vec![1, 2, 3, 0]));
    assert_eq!(memory.statistics().cache_misses, 1);
    // the cache answers the next read, whatever size is asked for
    assert_eq!(memory.read(a, 2), Ok(vec![1, 2, 3, 0]));
    assert_eq!(memory.statistics().cache_hits, 1);
    // a write drops what the cache holds
    assert_eq!(memory.write(a, &[9]), Ok(()));
    assert_eq!(memory.read(a, 2), Ok(vec![9, 2]));
    assert_eq!(memory.read(a, 17), Ok(vec![9, 2]));
    assert_eq!(memory.read(b, 17), Err(MemoryError::PageFault(3)));
    let nowhere = MemoryAddress::new(0, 0, 4);
    assert_eq!(memory.read(nowhere, 1), Err(MemoryError::PermissionDenied(0)));
    assert_eq!(memory.write(nowhere, &[1]), Err(MemoryError::PermissionDenied(0)));
    assert_eq!(memory.allocate(0, SegmentType::Heap), Err(MemoryError::OutOfMemory));
}

#[test]
fn memory_is_protected_and_given_up() {
    let mut memory = manager();
    let a = memory.allocate(8, SegmentType::Data).unwrap();
    memory.protect(a, zkvm::memory::permissions::AccessPermissions::new(true, false, false)).unwrap();
    assert_eq!(memory.write(a, &[1]), Err(MemoryError::PermissionDenied(0)));
    assert_eq!(memory.read(a, 1), Ok(vec![0]));
    assert_eq!(memory.deallocate(a), Ok(()));
    assert_eq!(memory.statistics().total_deallocations, 1);
    assert_eq!(memory.deallocate(a), Err(MemoryError::SegmentFault(0)));
    let b = memory.allocate(8, SegmentType::Data).unwrap();
    // the page that was freed is handed out again
    assert_eq!(b, MemoryAddress::new(0, 0, 0));
    assert_eq!(MemoryAddress::new(1, 2, 3).key(), (1u128 << 64) + (2u128 << 32) + 3);
}

#[test]
fn collector_runs_when_the_threshold_is_reached() {
    let mut memory = MemoryManager::new(MemoryConfig { page_size: 64, gc_threshold: 100, cache_size: 2 });
    memory.allocate(60, SegmentType::Heap).unwrap();
    let b = memory.allocate(60, SegmentType::Heap).unwrap();
    assert_eq!(b.segment_id, 1);
    // 120 bytes are held: the collector sweeps both segments, which have no owner
    let c = memory.allocate(10, SegmentType::Heap).unwrap();
    assert_eq!(c.segment_id, 0);
    assert_eq!(c.page_id, 2);
}

#[test]
fn a_request_goes_to_the_first_peer_with_room() {
    let mut sync = StateSync::new(1, 0);
    sync.start_sync(1, 0).unwrap();
    sync.start_sync(2, 0).unwrap();
    sync.handle_request(request(1, 0), 0).unwrap();
    sync.handle_request(request(2, 0), 0).unwrap();
    assert_eq!(sync.sync_state.pending_requests[0].peer, 1);
    assert_eq!(sync.sync_state.pending_requests[0].requests.len(), 1);
    assert_eq!(sync.sync_state.pending_requests[0].requests[0].block_number, 1);
    assert_eq!(sync.sync_state.pending_requests[1].requests.len(), 1);
    assert_eq!(sync.sync_state.pending_requests[1].requests[0].block_number, 2);
    assert!(sync.sync_state.sync_queue.is_empty());
    // nobody has room now: the third request waits
    sync.handle_request(request(3, 0), 0).unwrap();
    let waiting: Vec<u64> = sync.sync_state.sync_queue.iter().map(|r| r.block_number).collect();
    assert_eq!(waiting, vec![3]);
}

#[test]
fn a_request_that_failed_too_often_is_refused_and_gone() {
    let mut sync = StateSync::new(4, 0);
    sync.start_sync(1, 0).unwrap();
    sync.sync_state.failed_requests.push(zkvm::network::sync::FailedRequest { request: request(9, 0), retries: 3 });
    match sync.handle_request(request(9, 5), 5) {
        Err(NetworkError::SyncError(text)) => assert_eq!(text, "Request failed after 3 retries"),
        other => panic!("Expected sync error, found {:?}", other),
    }
    assert!(sync.sync_state.sync_queue.is_empty());
    assert!(sync.sync_state.pending_requests[0].requests.is_empty());
    assert_eq!(sync.retries_of(&request(9, 0)), 3);
    // a request that was answered already is dropped without a word
    sync.sync_state.completed_requests.push(request(4, 0));
    sync.handle_request(request(4, 6), 6).unwrap();
    assert!(sync.sync_state.sync_queue.is_empty());
    assert!(sync.sync_state.pending_requests[0].requests.is_empty());
}
