//! Labels of the segment index and the distributed lookup.

use std::sync::Arc;
use std::time::Duration;

use tessera::index::distributed::{
    fan_out_outcome, fan_out_step, FanOutEvent, FanOutStep,
};
use tessera::index::labels::{check_dim, grown_capacity};
use tessera::index::{DistributedSegmentIndex, LabelMap, TierBudget, UsearchConfig};
use tessera::transport::mock::{MockEvent, MockPeer};
use tessera::{
    BackendError, BlockId, BlockPayload, MockTransport, NodeId, RankId, Topology, World,
};

/// Peer with a table from content hash to block.
struct HashPeer {
    hashes: Vec<(u64, BlockId)>,
    broken: bool,
}

impl HashPeer {
    fn new(hashes: Vec<(u64, BlockId)>) -> HashPeer {
        HashPeer {
            hashes,
            broken: false,
        }
    }
}

impl MockPeer for HashPeer {
    fn provide_block(&mut self, _block_id: BlockId) -> Result<BlockPayload, BackendError> {
        Ok(BlockPayload {
            c_kv: vec![],
            k_rope: vec![],
            fp8_scales: None,
        })
    }
    fn accept_pushed(&mut self, _payload: BlockPayload) -> Result<BlockId, BackendError> {
        Ok(BlockId(0))
    }
    fn lookup_hash(&mut self, content_hash: u64) -> Result<Option<BlockId>, BackendError> {
        if self.broken {
            return Err(BackendError::Other("down".to_string()));
        }
        Ok(self
            .hashes
            .iter()
            .find(|(h, _)| *h == content_hash)
            .map(|(_, b)| *b))
    }
}

fn flat(ns: u128) -> TierBudget {
    TierBudget {
        intra_node: ns,
        intra_rack: ns,
        cross_rack: ns,
    }
}

fn build_index(world_size: u32, local_rank: RankId, budget: Duration) -> DistributedSegmentIndex {
    let world = Arc::new(World::new(local_rank, world_size, Topology::SingleNode).unwrap());
    DistributedSegmentIndex::new(world, flat(budget.as_nanos()))
}

#[test]
fn remote_hit_returns_global_id_pointing_at_owner_rank() {
    let mut transport = MockTransport::with_peers(vec![
        HashPeer::new(vec![]),
        HashPeer::new(vec![]),
        HashPeer::new(vec![(0xABCD, BlockId(42))]),
    ]);
    let idx = build_index(3, RankId(0), Duration::from_millis(50));
    let hit = idx.lookup_hash(&mut transport, 0xABCD, 0);
    assert!(hit.is_some());
    let hit = hit.unwrap();
    assert_eq!(hit.global.rank, RankId(2));
    assert_eq!(hit.global.block, BlockId(42));
    assert!(!hit.local);
}

#[test]
fn all_peers_miss_returns_none() {
    let mut transport = MockTransport::with_peers(vec![
        HashPeer::new(vec![]),
        HashPeer::new(vec![(0xCAFE, BlockId(7))]),
        HashPeer::new(vec![(0xBEEF, BlockId(9))]),
    ]);
    let idx = build_index(3, RankId(0), Duration::from_millis(50));
    let hit = idx.lookup_hash(&mut transport, 0xDEAD, 0);
    assert!(hit.is_none());
}

#[test]
fn singleton_world_short_circuits_without_fanout() {
    let mut transport = MockTransport::new_world(1);
    let idx = build_index(1, RankId(0), Duration::from_millis(50));
    let hit = idx.lookup_hash(&mut transport, 0xFFFF, 0);
    assert!(hit.is_none());
    let events = transport.events();
    assert!(events
        .iter()
        .all(|e| !matches!(e, MockEvent::QueryHash { .. })));
}

#[test]
fn budget_scales_per_tier_multi_node() {
    let base = Duration::from_micros(100);
    let topology = Topology::MultiNode {
        node_of: vec![NodeId(0), NodeId(0), NodeId(1)],
    };
    let world = Arc::new(World::new(RankId(0), 3, topology).unwrap());
    let idx = DistributedSegmentIndex::new(world, flat(base.as_nanos())).with_tier_multipliers(
        TierBudget {
            intra_node: base.mul_f32(1.0).as_nanos(),
            intra_rack: base.mul_f32(8.0).as_nanos(),
            cross_rack: base.mul_f32(80.0).as_nanos(),
        },
    );

    assert_eq!(
        idx.effective_budget_for(RankId(1)),
        base.as_nanos(),
        "same-node tier"
    );
    assert_eq!(
        idx.effective_budget_for(RankId(2)),
        base.mul_f32(8.0).as_nanos(),
        "cross-node tier"
    );
    // The fan-out may run as long as the slowest tier allows.
    let plan = idx.plan_lookup(100_000).unwrap();
    assert_eq!(plan.peers, vec![RankId(1), RankId(2)]);
    assert_eq!(plan.remaining, 700_000);
}

#[test]
fn budget_exhausted_returns_safe_miss() {
    let mut transport = MockTransport::with_peers(vec![
        HashPeer::new(vec![]),
        HashPeer::new(vec![(0xCAFE, BlockId(100))]),
    ]);
    let idx = build_index(2, RankId(0), Duration::from_millis(10));
    // Nothing is left of the budget, so nobody is asked.
    let late = Duration::from_millis(10).as_nanos();
    assert!(idx.plan_lookup(late).is_none());
    assert!(
        idx.lookup_hash(&mut transport, 0xCAFE, late).is_none(),
        "budget exceeded must return None safely"
    );
    assert_eq!(transport.event_count(), 0);
    // A timeout before the answer is a miss.
    assert_eq!(
        fan_out_outcome(&vec![
            FanOutEvent::TimedOut,
            FanOutEvent::Hit {
                peer: RankId(1),
                block: BlockId(100)
            }
        ]),
        None
    );
    assert!(idx.lookup_hash(&mut transport, 0xCAFE, late - 1).is_some());
}

#[test]
fn failing_peers_do_not_hide_a_hit() {
    let broken = HashPeer {
        hashes: vec![],
        broken: true,
    };
    let mut transport = MockTransport::with_peers(vec![
        HashPeer::new(vec![]),
        broken,
        HashPeer::new(vec![(1, BlockId(5))]),
    ]);
    let idx = build_index(3, RankId(0), Duration::from_millis(1));
    let hit = idx.lookup_hash(&mut transport, 1, 0).unwrap();
    assert_eq!(hit.global.rank, RankId(2));
    assert_eq!(
        transport.events(),
        vec![
            MockEvent::QueryHash {
                dst: RankId(1),
                content_hash: 1
            },
            MockEvent::QueryHash {
                dst: RankId(2),
                content_hash: 1
            },
        ]
    );
}

#[test]
fn the_first_hit_wins() {
    let hit = |peer, block| FanOutEvent::Hit {
        peer: RankId(peer),
        block: BlockId(block),
    };
    let events = vec![
        FanOutEvent::Miss { peer: RankId(1) },
        FanOutEvent::Failed { peer: RankId(2) },
        hit(3, 30),
        hit(4, 40),
    ];
    let won = fan_out_outcome(&events).unwrap();
    assert_eq!((won.global.rank, won.global.block), (RankId(3), BlockId(30)));
    assert_eq!(fan_out_step(events[0]), FanOutStep::Wait);
    assert_eq!(fan_out_step(FanOutEvent::Exhausted), FanOutStep::Done(None));
    assert_eq!(fan_out_outcome(&vec![]), None);
    assert_eq!(
        fan_out_outcome(&vec![FanOutEvent::Exhausted, hit(1, 1)]),
        None
    );
}

#[test]
fn labels_follow_their_blocks() {
    let mut m = LabelMap::new();
    assert!(m.is_empty());
    let a = m.next_label();
    let b = m.next_label();
    assert_eq!((a, b), (1, 2));
    assert_eq!(m.bind(42, a), None);
    assert_eq!(m.bind(7, b), None);
    assert_eq!(m.len(), 2);
    assert_eq!(m.resolve(&vec![99, b, a]), vec![(1, 7), (2, 42)]);
    // Adding a block again replaces its label.
    let c = m.next_label();
    assert_eq!(m.bind(42, c), Some(a));
    assert_eq!(m.block_of(a), None);
    assert_eq!(m.block_of(c), Some(42));
    assert_eq!(m.len(), 2);
    assert_eq!(m.unbind(42), Some(c));
    assert_eq!(m.unbind(42), None);
    assert_eq!(m.resolve(&vec![a, b, c]), vec![(1, 7)]);
}

#[test]
fn descriptors_must_have_the_index_dimension() {
    assert!(check_dim(16, 16).is_ok());
    assert_eq!(
        check_dim(3, 16).unwrap_err().to_string(),
        "descriptor length 3 does not match index dimensions 16"
    );
    let c = UsearchConfig::default_for_dim(16);
    assert_eq!(
        (
            c.dimensions,
            c.connectivity,
            c.expansion_add,
            c.expansion_search
        ),
        (16, 32, 200, 64)
    );
}

#[test]
fn capacity_doubles_from_a_minimum() {
    assert_eq!(grown_capacity(0, 0), Some(1024));
    assert_eq!(grown_capacity(5, 6), None);
    assert_eq!(grown_capacity(1024, 1024), Some(2048));
    assert_eq!(grown_capacity(600, 600), Some(1200));
    assert_eq!(grown_capacity(usize::MAX, usize::MAX), Some(usize::MAX));
}
