//! Ranks, nodes, topologies and worlds.

use tessera::{BlockId, GlobalBlockId, LatencyTier, NodeId, RankId, TokenRange, Topology, World};

#[test]
fn singleton_is_rank0_size1() {
    let w = World::singleton();
    assert_eq!(w.local, RankId::zero());
    assert_eq!(w.size, 1);
    assert!(!w.has_peers());
    assert_eq!(w.peers().len(), 0);
}

#[test]
fn rank_display_uses_r_prefix() {
    assert_eq!(RankId(7).to_string(), "r7");
    assert_eq!(NodeId(2).to_string(), "n2");
}

#[test]
fn world_new_rejects_out_of_range_local() {
    assert!(World::new(RankId(4), 4, Topology::SingleNode).is_none());
    assert!(World::new(RankId(3), 4, Topology::SingleNode).is_some());
}

#[test]
fn world_new_rejects_inconsistent_node_mapping() {
    let bad = World::new(
        RankId(0),
        4,
        Topology::MultiNode {
            node_of: vec![NodeId(0); 3], // wrong length
        },
    );
    assert!(bad.is_none());
    let good = World::new(
        RankId(0),
        4,
        Topology::MultiNode {
            node_of: vec![NodeId(0), NodeId(0), NodeId(1), NodeId(1)],
        },
    );
    assert!(good.is_some());
}

#[test]
fn peers_excludes_local() {
    let w = World::new(RankId(1), 4, Topology::SingleNode).unwrap();
    let peers: Vec<_> = w.peers();
    assert_eq!(peers, vec![RankId(0), RankId(2), RankId(3)]);
}

#[test]
fn multi_node_topology_validates_mapping() {
    let good = World::new(
        RankId(0),
        4,
        Topology::MultiNode {
            node_of: vec![NodeId(0), NodeId(0), NodeId(1), NodeId(1)],
        },
    );
    assert!(good.is_some());

    let bad_len = World::new(
        RankId(0),
        4,
        Topology::MultiNode {
            node_of: vec![NodeId(0), NodeId(1)],
        },
    );
    assert!(bad_len.is_none());
}

#[test]
fn single_node_topology_classifies_every_peer_as_intra_node() {
    let topology = Topology::SingleNode;
    assert_eq!(topology.node_of(RankId(0)), Some(NodeId(0)));
    assert_eq!(topology.node_of(RankId(99)), Some(NodeId(0)));
    assert!(topology.is_same_node(RankId(0), RankId(1)));

    let world = World::new(RankId(0), 4, Topology::SingleNode).unwrap();
    assert_eq!(world.peer_tier(RankId(3)), LatencyTier::IntraNode);
}

#[test]
fn multi_node_topology_classifies_correctly() {
    // 4 ranks: 0,1 on node-0; 2,3 on node-1.
    let topology = Topology::MultiNode {
        node_of: vec![NodeId(0), NodeId(0), NodeId(1), NodeId(1)],
    };
    assert_eq!(topology.node_of(RankId(0)), Some(NodeId(0)));
    assert_eq!(topology.node_of(RankId(2)), Some(NodeId(1)));
    assert_eq!(
        topology.node_of(RankId(99)),
        None,
        "out-of-range rank returns None"
    );

    assert!(topology.is_same_node(RankId(0), RankId(1)));
    assert!(!topology.is_same_node(RankId(0), RankId(2)));
    assert!(!topology.is_same_node(RankId(0), RankId(99)));

    let world = World::new(RankId(0), 4, topology).unwrap();
    assert_eq!(world.peer_tier(RankId(1)), LatencyTier::IntraNode);
    assert_eq!(world.peer_tier(RankId(2)), LatencyTier::IntraRack);
    assert_eq!(world.peer_tier(RankId(3)), LatencyTier::IntraRack);
}

#[test]
fn latency_tier_as_str_is_stable() {
    assert_eq!(LatencyTier::IntraNode.as_str(), "intra_node");
    assert_eq!(LatencyTier::IntraRack.as_str(), "intra_rack");
    assert_eq!(LatencyTier::CrossRack.as_str(), "cross_rack");
}

#[test]
fn empty_and_default_worlds() {
    assert!(World::new(RankId(0), 0, Topology::SingleNode).is_none());
    assert_eq!(World::default().size, 1);
    assert!(!Topology::SingleNode.is_multi_node());
    let two = World::new(RankId(1), 2, Topology::SingleNode).unwrap();
    assert!(two.has_peers());
    assert_eq!(two.peers(), vec![RankId(0)]);
}

#[test]
fn ranks_on_one_node_are_so_both_ways() {
    let topology = Topology::MultiNode {
        node_of: vec![NodeId(4), NodeId(9), NodeId(4)],
    };
    assert!(topology.is_multi_node());
    for a in 0..4 {
        for b in 0..4 {
            assert_eq!(
                topology.is_same_node(RankId(a), RankId(b)),
                topology.is_same_node(RankId(b), RankId(a))
            );
        }
    }
    assert!(topology.is_same_node(RankId(0), RankId(2)));
    assert!(!topology.is_same_node(RankId(3), RankId(3)));
}

#[test]
fn identifiers_convert_and_render() {
    assert_eq!(u32::from(RankId::from(5)), 5);
    assert_eq!(u32::from(BlockId::from(6)), 6);
    assert_eq!(RankId(5).raw(), 5);
    assert_eq!(NodeId(5).raw(), 5);
    assert_eq!(BlockId(5).raw(), 5);
    let g = GlobalBlockId::new(RankId(10), BlockId(4_294_967_295));
    assert_eq!(g.to_string(), "r10:b4294967295");
    assert_eq!(GlobalBlockId::new(RankId(0), BlockId(0)).to_string(), "r0:b0");
}

#[test]
fn token_ranges_measure_themselves() {
    assert_eq!(TokenRange::new(64, 128).len(), 64);
    assert!(TokenRange::new(5, 5).is_empty());
    assert_eq!(TokenRange::from(3..7), TokenRange::new(3, 7));
    assert!(!TokenRange::new(5, 6).is_empty());
}

#[test]
fn a_topology_on_one_node_is_not_multi_node() {
    let on = |nodes: &[u32]| Topology::MultiNode {
        node_of: nodes.iter().map(|n| NodeId(*n)).collect(),
    };
    assert!(!on(&[]).is_multi_node());
    assert!(!on(&[3]).is_multi_node());
    assert!(!on(&[0, 0]).is_multi_node());
    assert!(!on(&[5, 5, 5]).is_multi_node());
    assert!(on(&[0, 1]).is_multi_node());
    assert!(on(&[2, 2, 2, 0]).is_multi_node());
    assert!(!Topology::SingleNode.is_multi_node());
}
