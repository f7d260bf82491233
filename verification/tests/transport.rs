//! Transports between ranks, and requests that move over them.

use std::sync::Arc;

use rand::{Rng, SeedableRng};
use rand_chacha::ChaCha8Rng;

use tessera::block_manager::transfer::{
    AbortReason, TransferAction, TransferEvent, TransferPhase, TransferStep,
};
use tessera::block_manager::BlockManagerPeerAdapter;
use tessera::transport::latency::{admit_call, delay_for, representative_peer};
use tessera::transport::mock::{MockEvent, MockPeer, NullPeer};
use tessera::transport::{NcclTransport, P2pCudaTransport};
use tessera::{
    BackendError, BlockId, BlockPayload, CkvDtype, CompressionScheme, LatencyInjector,
    LatencyProfile, LatencyTier, MlaBlockConfig, MockTransport, NodeId, RankId, RankTransport,
    ReservationToken, TesseraBlockManager, TesseraError, TokenRange, Topology, World,
};

fn payload(c_kv: Vec<u8>, k_rope: Vec<u8>) -> BlockPayload {
    BlockPayload {
        c_kv,
        k_rope,
        fp8_scales: None,
    }
}

// ---- the mock transport

/// Peer that records all incoming calls and has a table from content hash to block.
struct CapturePeer {
    payloads: Vec<(BlockId, BlockPayload)>,
    hashes: Vec<(u64, BlockId)>,
    accepted: Vec<usize>,
    seals_received: Vec<(RankId, BlockId, u64, Vec<u32>)>,
    releases_received: Vec<(RankId, BlockId)>,
}

impl CapturePeer {
    fn new() -> CapturePeer {
        CapturePeer {
            payloads: Vec::new(),
            hashes: Vec::new(),
            accepted: Vec::new(),
            seals_received: Vec::new(),
            releases_received: Vec::new(),
        }
    }

    fn put(&mut self, block_id: BlockId, payload: BlockPayload, content_hash: u64) {
        self.payloads.push((block_id, payload));
        self.hashes.push((content_hash, block_id));
    }
}

impl MockPeer for CapturePeer {
    fn provide_block(&mut self, block_id: BlockId) -> Result<BlockPayload, BackendError> {
        self.payloads
            .iter()
            .find(|(b, _)| *b == block_id)
            .map(|(_, p)| p.clone())
            .ok_or_else(|| BackendError::Other(format!("no payload for {block_id:?}")))
    }

    fn accept_pushed(&mut self, payload: BlockPayload) -> Result<BlockId, BackendError> {
        let id = BlockId(self.accepted.len() as u32 + 1000);
        self.accepted.push(payload.byte_len());
        self.payloads.push((id, payload));
        Ok(id)
    }

    fn lookup_hash(&mut self, content_hash: u64) -> Result<Option<BlockId>, BackendError> {
        Ok(self
            .hashes
            .iter()
            .find(|(h, _)| *h == content_hash)
            .map(|(_, b)| *b))
    }

    fn on_seal_announce(
        &mut self,
        src: RankId,
        block_id: BlockId,
        content_hash: u64,
        descriptor: &[u32],
    ) -> Result<(), BackendError> {
        self.seals_received
            .push((src, block_id, content_hash, descriptor.to_vec()));
        Ok(())
    }

    fn on_release_announce(&mut self, src: RankId, block_id: BlockId) -> Result<(), BackendError> {
        self.releases_received.push((src, block_id));
        Ok(())
    }
}

#[test]
fn broadcast_seal_reaches_all_peers_except_source() {
    let peers: Vec<_> = (0..4).map(|_| CapturePeer::new()).collect();
    let mut transport = MockTransport::with_peers(peers);
    let descriptor = [0.1f32.to_bits(), 0.2f32.to_bits(), 0.3f32.to_bits()];
    transport
        .broadcast_seal(RankId(0), BlockId(7), 0xCAFE, &descriptor)
        .unwrap();

    // Source did NOT receive its own broadcast.
    assert!(transport
        .peer(RankId(0))
        .unwrap()
        .seals_received
        .is_empty());
    // Every other peer got it exactly once.
    for i in 1..4 {
        let received = &transport.peer(RankId(i)).unwrap().seals_received;
        assert_eq!(received.len(), 1, "rank {i} missed the broadcast");
        assert_eq!(
            received[0],
            (RankId(0), BlockId(7), 0xCAFE, descriptor.to_vec())
        );
    }

    let broadcasts = transport
        .events()
        .iter()
        .filter(|e| matches!(e, MockEvent::BroadcastSeal { .. }))
        .count();
    assert_eq!(broadcasts, 1);
}

#[test]
fn fetch_block_returns_payload_from_owner_peer() {
    let mut transport = MockTransport::with_peers(vec![CapturePeer::new()]);
    let mut peer1 = CapturePeer::new();
    let stored = payload(vec![1, 2, 3, 4], vec![5, 6]);
    peer1.put(BlockId(42), stored.clone(), 0xDEAD);
    assert!(transport.register_peer(RankId(1), peer1).is_none());

    let fetched = transport.fetch_block(RankId(1), BlockId(42)).unwrap();
    assert_eq!(fetched.c_kv, stored.c_kv);
    assert_eq!(fetched.k_rope, stored.k_rope);
    assert!(fetched.fp8_scales.is_none());
    assert_eq!(fetched.byte_len(), 6);
}

#[test]
fn push_block_assigns_destination_block_id() {
    let mut transport = MockTransport::with_peers(vec![CapturePeer::new(), CapturePeer::new()]);
    let assigned = transport
        .push_block(RankId(1), payload(vec![0xAA; 64], vec![0xBB; 16]))
        .unwrap();
    // CapturePeer assigns starting at 1000.
    assert_eq!(assigned, BlockId(1000));
    let peer1 = transport.peer(RankId(1)).unwrap();
    assert_eq!(peer1.accepted.len(), 1);
    assert_eq!(peer1.accepted[0], 80);
    assert_eq!(
        transport.events(),
        vec![MockEvent::Push {
            dst: RankId(1),
            bytes: 80
        }]
    );
}

#[test]
fn query_hash_returns_local_block_id_when_present() {
    let mut peer1 = CapturePeer::new();
    peer1.put(BlockId(11), payload(vec![], vec![]), 0xFEED);
    let mut transport = MockTransport::with_peers(vec![CapturePeer::new(), peer1]);

    let hit = transport.query_hash(RankId(1), 0xFEED).unwrap();
    assert_eq!(hit, Some(BlockId(11)));
    let miss = transport.query_hash(RankId(1), 0xBAD).unwrap();
    assert_eq!(miss, None);
}

#[test]
fn release_announce_propagates_to_peers() {
    let peers: Vec<_> = (0..3).map(|_| CapturePeer::new()).collect();
    let mut transport = MockTransport::with_peers(peers);
    transport
        .announce_release(RankId(0), BlockId(99))
        .unwrap();
    let releases: Vec<_> = transport
        .events()
        .iter()
        .filter_map(|e| match e {
            MockEvent::Release { src, block_id } => Some((*src, *block_id)),
            _ => None,
        })
        .collect();
    assert_eq!(releases.len(), 1);
    assert_eq!(releases[0], (RankId(0), BlockId(99)));
    for i in 1..3 {
        assert_eq!(
            transport.peer(RankId(i)).unwrap().releases_received,
            vec![(RankId(0), BlockId(99))]
        );
    }
    assert!(transport
        .peer(RankId(0))
        .unwrap()
        .releases_received
        .is_empty());
}

#[test]
fn topology_is_single_node_for_mock() {
    let transport = MockTransport::new_world(2);
    assert!(matches!(transport.topology(), Topology::SingleNode));
    assert_eq!(transport.name(), "mock");
}

#[test]
fn ranks_without_a_handler_are_reported() {
    let mut transport = MockTransport::singleton();
    let text = "MockTransport: no peer registered for rank r5";
    let nobody = RankId(5);
    assert_eq!(
        transport
            .fetch_block(nobody, BlockId(0))
            .unwrap_err()
            .to_string(),
        text
    );
    assert_eq!(
        transport
            .push_block(nobody, payload(vec![], vec![]))
            .unwrap_err()
            .to_string(),
        text
    );
    assert_eq!(
        transport.query_hash(nobody, 1).unwrap_err().to_string(),
        text
    );
    assert_eq!(
        transport
            .reserve_slots(nobody, 1, 1)
            .unwrap_err()
            .to_string(),
        text
    );
    assert_eq!(
        transport
            .release_reservation(nobody, ReservationToken(1))
            .unwrap_err()
            .to_string(),
        text
    );
    assert_eq!(transport.event_count(), 5);
    transport.clear_events();
    assert_eq!(transport.event_count(), 0);
}

#[test]
fn the_null_peer_holds_nothing() {
    let mut transport = MockTransport::new_world(2);
    assert_eq!(
        transport
            .fetch_block(RankId(1), BlockId(0))
            .unwrap()
            .byte_len(),
        0
    );
    assert_eq!(
        transport
            .push_block(RankId(1), payload(vec![1], vec![]))
            .unwrap(),
        BlockId(0)
    );
    assert_eq!(transport.query_hash(RankId(1), 9).unwrap(), None);
    assert_eq!(NullPeer.reserve(1, 2).unwrap(), ReservationToken(0));
    // A handler without tokens of its own gets unique ones from the transport.
    let a = transport.reserve_slots(RankId(0), 1, 2).unwrap();
    let b = transport.reserve_slots(RankId(1), 1, 2).unwrap();
    assert_eq!((a, b), (ReservationToken(1), ReservationToken(2)));
    assert_eq!(
        transport.settle_token(ReservationToken(77)),
        ReservationToken(77)
    );
    transport.release_reservation(RankId(0), a).unwrap();
}

// ---- transports that wait for hardware

#[test]
fn hardware_transports_defer_every_operation() {
    let mut nccl = NcclTransport::new(RankId(0), 2, Topology::SingleNode);
    let mut p2p = P2pCudaTransport::new(RankId(0), 2, Topology::SingleNode);
    assert_eq!(nccl.name(), "nccl");
    assert_eq!(p2p.name(), "p2p_cuda");
    let e = nccl.query_hash(RankId(1), 1).unwrap_err().to_string();
    assert_eq!(e, NcclTransport::deferred("query_hash").to_string());
    let e = p2p
        .reserve_slots(RankId(1), 1, 1)
        .unwrap_err()
        .to_string();
    assert_eq!(e, P2pCudaTransport::deferred("reserve_slots").to_string());
    assert_ne!(
        NcclTransport::deferred("a").to_string(),
        NcclTransport::deferred("b").to_string()
    );
    assert!(nccl.fetch_block(RankId(1), BlockId(0)).is_err());
    assert!(nccl.push_block(RankId(1), payload(vec![], vec![])).is_err());
    assert!(p2p.announce_release(RankId(0), BlockId(0)).is_err());
    assert!(p2p
        .broadcast_seal(RankId(0), BlockId(0), 1, &[])
        .is_err());
    assert!(matches!(nccl.topology(), Topology::SingleNode));
}

// ---- latency

fn profile(intra_node_us: u64, intra_rack_us: u64, jitter_us: u64) -> LatencyProfile {
    LatencyProfile {
        intra_node_us,
        intra_rack_us,
        cross_rack_us: 0,
        jitter_us,
    }
}

#[test]
fn intra_node_tier_latency_is_honoured() {
    let mut injector =
        LatencyInjector::new(profile(100, 0, 0), RankId(0), Topology::SingleNode, 42);
    assert_eq!(injector.sample_delay(RankId(1)), 100);
}

#[test]
fn multi_node_topology_picks_cross_node_tier() {
    let topo = Topology::MultiNode {
        node_of: vec![NodeId(0), NodeId(1)],
    };
    let mut injector = LatencyInjector::new(profile(1, 500, 0), RankId(0), topo, 7);
    assert_eq!(injector.tier_for(RankId(1)), LatencyTier::IntraRack);
    assert_eq!(injector.sample_delay(RankId(1)), 500);
    assert_eq!(injector.sample_delay(RankId(0)), 1);
    // A rank that is on no node is far away.
    assert_eq!(injector.tier_for(RankId(9)), LatencyTier::IntraRack);
    assert!(injector.topology().is_multi_node());
}

#[test]
fn delays_are_reproducible_with_the_same_seed() {
    let p = profile(150, 0, 100);
    let sample = |seed| -> Vec<u64> {
        let mut i = LatencyInjector::new(p, RankId(0), Topology::SingleNode, seed);
        (0..64).map(|_| i.sample_delay(RankId(1))).collect()
    };
    assert_eq!(sample(0xC0FFEE), sample(0xC0FFEE));
    assert_ne!(sample(1), sample(2));
    assert!(sample(3).iter().all(|us| (50..=250).contains(us)));
    let mut rng = ChaCha8Rng::seed_from_u64(5);
    let expected: Vec<u64> = (0..64)
        .map(|_| (150 + rng.gen_range(-100i64..=100)) as u64)
        .collect();
    assert_eq!(sample(5), expected);
}

#[test]
fn entropy_gives_different_injectors() {
    let p = profile(1 << 40, 0, 1 << 39);
    let sample = || {
        let mut i = LatencyInjector::with_entropy(p, RankId(0), Topology::SingleNode);
        assert_eq!(*i.profile(), p);
        (0..8).map(|_| i.sample_delay(RankId(1))).collect::<Vec<_>>()
    };
    assert_ne!(sample(), sample());
}

#[test]
fn delays_are_never_negative() {
    assert_eq!(delay_for(5, 3), 8);
    assert_eq!(delay_for(5, -3), 2);
    assert_eq!(delay_for(5, -9), 0);
    assert_eq!(delay_for(u64::MAX, 3), 2);
    assert_eq!(representative_peer(RankId(0)), RankId(1));
    assert_eq!(representative_peer(RankId(3)), RankId(0));
}

#[test]
fn profiles_have_their_numbers() {
    let d = LatencyProfile::default();
    assert_eq!(d, LatencyProfile::intra_node_realistic());
    assert_eq!(
        (d.intra_node_us, d.intra_rack_us, d.cross_rack_us, d.jitter_us),
        (5, 50, 500, 0)
    );
    let s = LatencyProfile::stress_multi_rack();
    assert_eq!(s.base_us(LatencyTier::IntraNode), 10);
    assert_eq!(s.base_us(LatencyTier::IntraRack), 100);
    assert_eq!(s.base_us(LatencyTier::CrossRack), 800);
    assert_eq!(s.jitter_us, 200);
    assert_eq!(LatencyProfile::zero().base_us(LatencyTier::CrossRack), 0);
}

// ---- moving requests

fn small_cfg() -> MlaBlockConfig {
    MlaBlockConfig::new(
        CompressionScheme::MlaLatent {
            latent_dim: 32,
            rope_key_dim: 8,
        },
        4,
        64,
        CkvDtype::Bf16,
        0,
    )
    .unwrap()
}

fn tiny_cfg() -> MlaBlockConfig {
    MlaBlockConfig::new(
        CompressionScheme::MlaLatent {
            latent_dim: 16,
            rope_key_dim: 4,
        },
        2,
        64,
        CkvDtype::Bf16,
        0,
    )
    .unwrap()
}

fn manager(cfg: MlaBlockConfig, rank: u32, megabytes: u64) -> TesseraBlockManager {
    let world = Arc::new(World::new(RankId(rank), 2, Topology::SingleNode).unwrap());
    TesseraBlockManager::new_with_world(cfg, megabytes * 1024 * 1024, RankId(rank), world).unwrap()
}

/// Peer that forwards everything to a block manager.
struct ManagerPeer {
    manager: TesseraBlockManager,
    accept_req_id: u64,
    pushed: Vec<BlockId>,
}

impl ManagerPeer {
    fn new(manager: TesseraBlockManager, accept_req_id: u64) -> ManagerPeer {
        ManagerPeer {
            manager,
            accept_req_id,
            pushed: Vec::new(),
        }
    }
}

impl MockPeer for ManagerPeer {
    fn provide_block(&mut self, block_id: BlockId) -> Result<BlockPayload, BackendError> {
        self.manager
            .export_payload(block_id)
            .map_err(|e| BackendError::Other(format!("export: {}", e.to_string())))
    }
    fn accept_pushed(&mut self, payload: BlockPayload) -> Result<BlockId, BackendError> {
        let bid = self
            .manager
            .import_payload(self.accept_req_id, TokenRange::new(0, 64), &payload)
            .map_err(|e| BackendError::Other(format!("import: {}", e.to_string())))?;
        self.pushed.push(bid);
        Ok(bid)
    }
    fn lookup_hash(&mut self, _: u64) -> Result<Option<BlockId>, BackendError> {
        Ok(None)
    }
    fn reserve(&mut self, req_id: u64, count: u32) -> Result<ReservationToken, BackendError> {
        self.manager
            .reserve_incoming(req_id, count)
            .map_err(|e| BackendError::Other(format!("reserve: {}", e.to_string())))
    }
    fn release_reservation(&mut self, token: ReservationToken) -> Result<(), BackendError> {
        self.manager
            .release_reservation_local(token)
            .map_err(|e| BackendError::Other(format!("release: {}", e.to_string())))
    }
}

fn world_with(dst: TesseraBlockManager) -> MockTransport<ManagerPeer> {
    let mut transport = MockTransport::with_peers(Vec::new());
    transport.register_peer(RankId(1), ManagerPeer::new(dst, 99));
    transport
}

/// Transport that drops calls at random.
struct Dropping {
    inner: MockTransport<ManagerPeer>,
    rng: ChaCha8Rng,
    drop_rate: f32,
}

impl Dropping {
    fn before(&mut self) -> Result<(), BackendError> {
        if self.drop_rate >= 1.0
            || (self.drop_rate > 0.0 && self.rng.gen::<f32>() < self.drop_rate)
        {
            return Err(BackendError::Other("simulated drop".to_string()));
        }
        Ok(())
    }
}

impl RankTransport for Dropping {
    fn broadcast_seal(
        &mut self,
        src: RankId,
        block_id: BlockId,
        content_hash: u64,
        descriptor: &[u32],
    ) -> Result<(), BackendError> {
        self.before()?;
        self.inner
            .broadcast_seal(src, block_id, content_hash, descriptor)
    }
    fn fetch_block(&mut self, src: RankId, block_id: BlockId) -> Result<BlockPayload, BackendError> {
        self.before()?;
        self.inner.fetch_block(src, block_id)
    }
    fn push_block(&mut self, dst: RankId, payload: BlockPayload) -> Result<BlockId, BackendError> {
        self.before()?;
        self.inner.push_block(dst, payload)
    }
    fn announce_release(&mut self, src: RankId, block_id: BlockId) -> Result<(), BackendError> {
        self.before()?;
        self.inner.announce_release(src, block_id)
    }
    fn query_hash(
        &mut self,
        dst: RankId,
        content_hash: u64,
    ) -> Result<Option<BlockId>, BackendError> {
        self.before()?;
        self.inner.query_hash(dst, content_hash)
    }
    fn reserve_slots(
        &mut self,
        dst: RankId,
        req_id: u64,
        count: u32,
    ) -> Result<ReservationToken, BackendError> {
        self.before()?;
        self.inner.reserve_slots(dst, req_id, count)
    }
    fn release_reservation(
        &mut self,
        dst: RankId,
        token: ReservationToken,
    ) -> Result<(), BackendError> {
        self.before()?;
        self.inner.release_reservation(dst, token)
    }
    fn topology(&self) -> &Topology {
        self.inner.topology()
    }
    fn name(&self) -> &'static str {
        "dropping"
    }
}

#[test]
fn transfer_request_moves_all_owned_blocks() {
    let mut src = manager(small_cfg(), 0, 16);
    let mut transport = world_with(manager(small_cfg(), 1, 16));

    let req_id = 7u64;
    for i in 0..3 {
        let bid = src.allocate(req_id, TokenRange::new(0, 64)).unwrap();
        src.fill_primary_test_pattern(bid, 0x10 + i as u8).unwrap();
    }
    assert_eq!(src.used_blocks(), 3);

    let moved = src
        .transfer_request_to_rank(req_id, RankId(1), &mut transport)
        .unwrap();
    assert_eq!(moved, 3);
    assert_eq!(src.used_blocks(), 0, "source must release after transfer");
    let peer = transport.peer(RankId(1)).unwrap();
    assert_eq!(
        peer.manager.used_blocks(),
        3,
        "destination must hold the imported blocks"
    );
    assert_eq!(peer.pushed.len(), 3);
    // The blocks arrive in order, byte for byte.
    let pushed = peer.pushed.clone();
    for (i, bid) in pushed.iter().enumerate() {
        let arrived = transport.fetch_block(RankId(1), *bid).unwrap();
        assert_eq!(arrived.c_kv, vec![0x10 + i as u8; 16384]);
    }
}

#[test]
fn transfer_of_unknown_request_returns_zero() {
    let mut src = manager(small_cfg(), 0, 16);
    let mut transport = MockTransport::new_world(2);
    let moved = src
        .transfer_request_to_rank(424242, RankId(1), &mut transport)
        .unwrap();
    assert_eq!(moved, 0);
}

#[test]
fn full_success_consumes_reservation_and_releases_source() {
    let mut src = manager(small_cfg(), 0, 32);
    let mut transport = world_with(manager(small_cfg(), 1, 32));

    let req_id = 7u64;
    for i in 0..4 {
        let bid = src.allocate(req_id, TokenRange::new(0, 64)).unwrap();
        src.fill_primary_test_pattern(bid, 0x10 + i as u8).unwrap();
    }
    assert_eq!(src.used_blocks(), 4);

    let moved = src
        .transfer_request_to_rank(req_id, RankId(1), &mut transport)
        .unwrap();
    assert_eq!(moved, 4);
    assert_eq!(src.used_blocks(), 0, "source must release after success");
    let peer = transport.peer(RankId(1)).unwrap();
    assert_eq!(
        peer.manager.used_blocks(),
        4,
        "destination must hold imported blocks"
    );
    assert_eq!(peer.pushed.len(), 4);
    assert_eq!(peer.manager.active_reservations(), 0);
}

#[test]
fn a_transfer_into_the_last_free_slots_succeeds() {
    let mut src = manager(small_cfg(), 0, 32);
    let mut transport = world_with(manager(small_cfg(), 1, 1));
    let total = transport.peer(RankId(1)).unwrap().manager.total_blocks();
    for _ in 0..total {
        src.allocate(7, TokenRange::new(0, 64)).unwrap();
    }
    let shared = src.request_blocks(7)[0];
    src.increment_ref(BlockId(shared)).unwrap();
    let moved = src.transfer_request_to_rank(7, RankId(1), &mut transport).unwrap();
    assert_eq!(moved, total);
    assert_eq!(src.used_blocks(), 1, "a block with another holder stays");
    let peer = transport.peer(RankId(1)).unwrap();
    assert_eq!(peer.manager.used_blocks(), total);
    assert_eq!(peer.manager.active_reservations(), 0);
}

#[test]
fn simulated_worlds_span_one_node() {
    assert!(matches!(MockTransport::new_world(3).topology(), Topology::SingleNode));
    assert!(matches!(MockTransport::singleton().topology(), Topology::SingleNode));
}

#[test]
fn destination_oom_aborts_cleanly_without_touching_source() {
    let mut src = manager(small_cfg(), 0, 32);
    let mut transport = world_with(manager(small_cfg(), 1, 1));

    let req_id = 13u64;
    // Allocate way more than the destination can possibly accept.
    for _ in 0..100 {
        src.allocate(req_id, TokenRange::new(0, 64)).unwrap();
    }
    let src_used_before = src.used_blocks();
    assert!(src_used_before >= 50, "source should hold many blocks");

    let result = src.transfer_request_to_rank(req_id, RankId(1), &mut transport);
    assert!(result.is_err(), "destination OOM must abort the transfer");
    if let Err(TesseraError::Backend(e)) = &result {
        let msg = format!("{e:?}");
        assert!(
            msg.contains("out of MLA blocks")
                || msg.contains("OutOfBlocks")
                || msg.contains("reserve"),
            "error should reference reservation/OOM; got: {msg}"
        );
    }
    assert_eq!(
        src.used_blocks(),
        src_used_before,
        "source must retain all blocks on aborted transfer"
    );
    assert_eq!(
        transport.peer(RankId(1)).unwrap().pushed.len(),
        0,
        "no blocks should have been pushed"
    );
}

#[test]
fn mid_stream_push_failure_releases_reservation_and_preserves_source() {
    let mut src = manager(small_cfg(), 0, 32);
    let mut transport = Dropping {
        inner: world_with(manager(small_cfg(), 1, 32)),
        rng: ChaCha8Rng::seed_from_u64(0xBEEF),
        drop_rate: 1.0,
    };

    let req_id = 21u64;
    for _ in 0..3 {
        src.allocate(req_id, TokenRange::new(0, 64)).unwrap();
    }
    let src_used_before = src.used_blocks();

    let result = src.transfer_request_to_rank(req_id, RankId(1), &mut transport);
    assert!(result.is_err(), "dropping everything must fail the transfer");
    assert_eq!(src.used_blocks(), src_used_before);
    let peer = transport.inner.peer(RankId(1)).unwrap();
    assert_eq!(peer.manager.used_blocks(), 0);
    assert_eq!(
        peer.manager.active_reservations(),
        0,
        "no reservations should leak on abort"
    );
}

#[test]
fn empty_request_returns_zero_without_calling_transport() {
    let mut src = manager(small_cfg(), 0, 32);
    let mut transport = world_with(manager(small_cfg(), 1, 32));
    let moved = src
        .transfer_request_to_rank(424242, RankId(1), &mut transport)
        .unwrap();
    assert_eq!(moved, 0);
    let events = transport.events();
    assert!(
        events.is_empty(),
        "empty request should not touch transport"
    );
}

#[test]
fn transfer_atomicity_under_chaos() {
    for seed in 0u64..16 {
        let mut src = manager(tiny_cfg(), 0, 8);

        // 5 source blocks, random drop_rate.
        for _ in 0..5 {
            let bid = src.allocate(seed, TokenRange::new(0, 64)).unwrap();
            src.fill_primary_test_pattern(bid, 0x11).unwrap();
        }
        let src_before = src.used_blocks();

        let drop_rate = (seed as f32) / 20.0; // 0.0 .. 0.75
        let mut transport = Dropping {
            inner: world_with(manager(tiny_cfg(), 1, 8)),
            rng: ChaCha8Rng::seed_from_u64(seed),
            drop_rate,
        };

        let outcome = src.transfer_request_to_rank(seed, RankId(1), &mut transport);
        let src_after = src.used_blocks();
        let dst_after = transport.inner.peer(RankId(1)).unwrap().manager.used_blocks();

        if outcome.is_ok() {
            assert_eq!(src_after, 0, "successful transfer must drain source");
            assert_eq!(dst_after, src_before, "all blocks must land at destination");
        } else {
            assert_eq!(
                src_after, src_before,
                "failed transfer must retain source state (seed={seed} drop_rate={drop_rate})"
            );
        }
    }
}

#[test]
fn a_failed_push_gives_the_reservation_back() {
    let mut src = manager(small_cfg(), 0, 1);
    for _ in 0..2 {
        src.allocate(7, TokenRange::new(0, 64)).unwrap();
    }
    let (transfer, action) = src.begin_transfer(7, RankId(1)).unwrap();
    assert!(matches!(
        action,
        TransferAction::Reserve {
            target: RankId(1),
            req_id: 7,
            count: 2
        }
    ));
    let token = ReservationToken(31);
    let step = src.step_transfer(transfer, TransferEvent::Reserved(Ok(token)));
    let transfer = match step {
        TransferStep::Perform(t, TransferAction::Push { target, payload }) => {
            assert_eq!(target, RankId(1));
            assert_eq!(payload.byte_len(), 16384 + 4096);
            t
        }
        other => panic!("expected a push, got {other:?}"),
    };
    let step = src.step_transfer(transfer, TransferEvent::Pushed(Ok(BlockId(0))));
    let transfer = match step {
        TransferStep::Perform(t, TransferAction::Push { .. }) => t,
        other => panic!("expected a push, got {other:?}"),
    };
    let lost = BackendError::Other("lost".to_string());
    let step = src.step_transfer(transfer, TransferEvent::Pushed(Err(lost)));
    let transfer = match step {
        TransferStep::Perform(t, TransferAction::Rollback { target, token: given }) => {
            assert_eq!((target, given), (RankId(1), token));
            assert!(matches!(t.phase, TransferPhase::RollingBack { .. }));
            t
        }
        other => panic!("expected a rollback, got {other:?}"),
    };
    match src.step_transfer(transfer, TransferEvent::RolledBack) {
        TransferStep::Aborted(e, reason) => {
            assert_eq!(e.to_string(), "device backend error: lost");
            assert_eq!(reason, AbortReason::PushFailed);
            assert_eq!(reason.label(), "push_failed");
        }
        other => panic!("expected an abort, got {other:?}"),
    }
    assert_eq!(src.used_blocks(), 2);
    assert!(src.begin_transfer(8, RankId(1)).is_none());
}

#[test]
fn a_block_that_is_gone_aborts_the_transfer() {
    let mut src = manager(small_cfg(), 0, 1);
    let gone = src.allocate(7, TokenRange::new(0, 64)).unwrap();
    let (transfer, _) = src.begin_transfer(7, RankId(1)).unwrap();
    src.free(gone).unwrap();
    let step = src.step_transfer(
        transfer,
        TransferEvent::Reserved(Ok(ReservationToken(1))),
    );
    match step {
        TransferStep::Perform(t, TransferAction::Rollback { .. }) => match t.phase {
            TransferPhase::RollingBack { cause, reason } => {
                assert!(matches!(cause, TesseraError::UnknownBlock(_)));
                assert_eq!(reason.label(), "export_failed");
            }
            other => panic!("unexpected phase {other:?}"),
        },
        other => panic!("expected a rollback, got {other:?}"),
    }
    assert_eq!(AbortReason::ReserveFailed.label(), "reserve_failed");
}

#[test]
fn a_committed_transfer_delivers_every_block() {
    let mut src = manager(small_cfg(), 0, 4);
    let mut dst = manager(small_cfg(), 1, 4);
    let resident = dst.allocate(5, TokenRange::new(0, 64)).unwrap();
    dst.fill_primary_test_pattern(resident, 0x77).unwrap();
    let mut sent = Vec::new();
    for byte in [0x11u8, 0x22, 0x33] {
        let id = src.allocate(42, TokenRange::new(0, 64)).unwrap();
        src.fill_primary_test_pattern(id, byte).unwrap();
        sent.push(src.export_payload(id).unwrap());
    }
    let mut transport = MockTransport::with_peers(Vec::new());
    transport.register_peer(
        RankId(1),
        BlockManagerPeerAdapter {
            manager: dst,
            accept_req_id: 99,
            token_range: TokenRange::new(64, 128),
        },
    );
    let moved = src
        .transfer_request_to_rank(42, RankId(1), &mut transport)
        .unwrap();
    assert_eq!(moved, 3);
    assert_eq!(src.used_blocks(), 0);

    let ids = transport.peer(RankId(1)).unwrap().manager.request_blocks(99);
    assert_eq!(ids.len(), 3);
    for (id, payload) in ids.iter().zip(sent.iter()) {
        let meta = transport.peer(RankId(1)).unwrap().manager.block_meta(BlockId(*id)).unwrap();
        assert_eq!(meta.token_range, TokenRange::new(64, 128));
        let held = transport.fetch_block(RankId(1), BlockId(*id)).unwrap();
        assert_eq!(held.c_kv, payload.c_kv);
        assert_eq!(held.k_rope, payload.k_rope);
        assert_eq!(held.fp8_scales, payload.fp8_scales);
    }
    let kept = transport.fetch_block(RankId(1), resident).unwrap();
    assert!(kept.c_kv.iter().all(|&b| b == 0x77));
}

#[test]
fn a_manager_reports_its_failures_to_peers() {
    let dst = manager(small_cfg(), 1, 4);
    let total = dst.total_blocks();
    let mut peer = BlockManagerPeerAdapter {
        manager: dst,
        accept_req_id: 99,
        token_range: TokenRange::new(0, 64),
    };
    assert_eq!(
        peer.provide_block(BlockId(3)).unwrap_err().to_string(),
        "export_payload(BlockId(3)): unknown block id: 3"
    );
    let short = payload(vec![0; 1], Vec::new());
    let text = peer.accept_pushed(short).unwrap_err().to_string();
    assert!(
        text.starts_with("import_payload: invalid configuration: import_payload: c_kv length 1"),
        "{text}"
    );
    assert_eq!(
        peer.reserve(1, total + 1).unwrap_err().to_string(),
        format!("reserve_incoming: out of MLA blocks (used=0, total={total})")
    );
    let token = peer.reserve(1, 2).unwrap();
    assert_eq!(peer.manager.reservation(token), Some((1, 2)));
    peer.release_reservation(token).unwrap();
    assert_eq!(peer.manager.reservation(token), None);
    assert_eq!(peer.lookup_hash(7).unwrap(), None);
}

#[test]
fn dropped_calls_are_reported() {
    assert!(admit_call("fetch_block", RankId(3), false).is_ok());
    match admit_call("fetch_block", RankId(3), true) {
        Err(BackendError::Other(text)) => {
            assert_eq!(text, "LatencyInjector: simulated drop on fetch_block to peer r3");
        }
        other => panic!("expected a drop, got {other:?}"),
    }
}
