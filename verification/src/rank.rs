//! Rank, world and topology types for multi-GPU deployments.
//!
//! Every block manager owns exactly one [`RankId`] and a shared handle to a [`World`] that
//! describes the deployment.

use vstd::prelude::*;
use vstd::std_specs::convert::FromSpecImpl;
use vstd::string::*;

use crate::lists;
use crate::text;

verus! {

/// Stable per-process rank identifier within a world.
#[derive(Debug, Clone, Copy, PartialEq, Eq, Hash, PartialOrd, Ord, Structural)]
pub struct RankId(pub u32);

impl RankId {
    /// Rank 0, the canonical singleton rank for non-distributed deployments.
    pub fn zero() -> (r: RankId)
        ensures
            r == RankId(0),
    {
        RankId(0)
    }

    /// Raw integer value.
    pub fn raw(self) -> (r: u32)
        ensures
            r == self.0,
    {
        self.0
    }

    /// The letter `r` followed by the rank number.
    pub open spec fn label(self) -> Seq<char> {
        "r"@ + text::decimal(self.0 as nat)
    }

    /// Render the rank as it appears in labels and messages.
    pub fn to_string(&self) -> (text: String)
        ensures
            text@ == self.label(),
    {
        let mut s = String::from_str("r");
        text::push_decimal(&mut s, self.0 as u64);
        s
    }
}

impl From<u32> for RankId {
    fn from(v: u32) -> (r: RankId) {
        RankId(v)
    }
}

impl FromSpecImpl<u32> for RankId {
    open spec fn obeys_from_spec() -> bool {
        true
    }

    open spec fn from_spec(v: u32) -> RankId {
        RankId(v)
    }
}

impl From<RankId> for u32 {
    fn from(v: RankId) -> (r: u32) {
        v.0
    }
}

impl FromSpecImpl<RankId> for u32 {
    open spec fn obeys_from_spec() -> bool {
        true
    }

    open spec fn from_spec(v: RankId) -> u32 {
        v.0
    }
}

/// Latency tier classifying the cost of reaching a peer, in increasing order of cost.
#[derive(Debug, Clone, Copy, PartialEq, Eq, PartialOrd, Ord, Hash, Structural)]
pub enum LatencyTier {
    /// Same node.
    IntraNode,
    /// Different node, same rack.
    IntraRack,
    /// Different rack.
    CrossRack,
}

impl LatencyTier {
    /// The identifier of the tier in metric labels.
    pub open spec fn label(self) -> Seq<char> {
        match self {
            LatencyTier::IntraNode => "intra_node"@,
            LatencyTier::IntraRack => "intra_rack"@,
            LatencyTier::CrossRack => "cross_rack"@,
        }
    }

    /// Short metric-label-friendly identifier.
    pub fn as_str(self) -> (s: &'static str)
        ensures
            s@ == self.label(),
    {
        match self {
            LatencyTier::IntraNode => "intra_node",
            LatencyTier::IntraRack => "intra_rack",
            LatencyTier::CrossRack => "cross_rack",
        }
    }
}

/// Stable per-node identifier.
#[derive(Debug, Clone, Copy, PartialEq, Eq, Hash, PartialOrd, Ord, Structural)]
pub struct NodeId(pub u32);

impl NodeId {
    /// Raw integer value.
    pub fn raw(self) -> (r: u32)
        ensures
            r == self.0,
    {
        self.0
    }

    /// The letter `n` followed by the node number.
    pub open spec fn label(self) -> Seq<char> {
        "n"@ + text::decimal(self.0 as nat)
    }

    /// Render the node as it appears in labels and messages.
    pub fn to_string(&self) -> (text: String)
        ensures
            text@ == self.label(),
    {
        let mut s = String::from_str("n");
        text::push_decimal(&mut s, self.0 as u64);
        s
    }
}

/// Deployment topology.
#[derive(Debug, Clone)]
#[non_exhaustive]
pub enum Topology {
    /// All ranks live on a single node.
    SingleNode,
    /// Multi-node deployment.
    MultiNode {
        /// Hosting node of each rank, indexed by the rank number.
        node_of: Vec<NodeId>,
    },
}

impl Topology {
    /// Node hosting `rank`: node 0 on a single node, the mapped node otherwise, and none for a
    /// rank without a mapping.
    pub open spec fn host(self, rank: RankId) -> Option<NodeId> {
        match self {
            Topology::SingleNode => Some(NodeId(0)),
            Topology::MultiNode { node_of } => if (rank.0 as int) < node_of@.len() {
                Some(node_of@[rank.0 as int])
            } else {
                None
            },
        }
    }

    /// Whether both ranks have a node, and it is the same one.
    pub open spec fn same_host(self, a: RankId, b: RankId) -> bool {
        self.host(a) is Some && self.host(a) == self.host(b)
    }

    /// Whether two ranks are on different nodes.
    pub open spec fn spans_nodes(self) -> bool {
        match self {
            Topology::SingleNode => false,
            Topology::MultiNode { node_of } => exists|i: int, j: int|
                0 <= i < node_of@.len() && 0 <= j < node_of@.len() && #[trigger] node_of@[i]
                    != #[trigger] node_of@[j],
        }
    }

    /// Whether this topology spans more than one node.
    pub fn is_multi_node(&self) -> (r: bool)
        ensures
            r == self.spans_nodes(),
    {
        match self {
            Topology::MultiNode { node_of } => {
                let mut i: usize = 1;
                while i < node_of.len()
                    invariant
                        1 <= i,
                        *self matches Topology::MultiNode { node_of: nodes } && nodes@ == node_of@,
                        forall|j: int|
                            0 <= j < i && j < node_of@.len() ==> #[trigger] node_of@[j]
                                == node_of@[0],
                    decreases node_of.len() - i,
                {
                    if node_of[i] != node_of[0] {
                        proof {
                            let nodes = (*self)->node_of@;
                            assert(nodes[i as int] != nodes[0]);
                        }
                        return true;
                    }
                    i += 1;
                }
                false
            },
            _ => false,
        }
    }

    /// Node id hosting the given rank, or `None` for ranks out of range. On a single node every
    /// rank reports `NodeId(0)`.
    pub fn node_of(&self, rank: RankId) -> (r: Option<NodeId>)
        ensures
            r == self.host(rank),
    {
        match self {
            Topology::SingleNode => Some(NodeId(0)),
            Topology::MultiNode { node_of } => {
                if (rank.0 as u64) < node_of.len() as u64 {
                    Some(node_of[rank.0 as usize])
                } else {
                    None
                }
            },
        }
    }

    /// Whether two ranks live on the same node; `false` if either rank is out of range.
    pub fn is_same_node(&self, a: RankId, b: RankId) -> (r: bool)
        ensures
            r == self.same_host(a, b),
    {
        match (self.node_of(a), self.node_of(b)) {
            (Some(x), Some(y)) => x == y,
            _ => false,
        }
    }
}

/// Description of the multi-rank deployment as observed by one process.
#[derive(Debug, Clone)]
pub struct World {
    /// This process's rank.
    pub local: RankId,
    /// Total number of ranks in the world.
    pub size: u32,
    /// Topology, which drives transport selection.
    pub topology: Topology,
}

impl World {
    /// Whether the parts describe a world: the local rank is one of `size` ranks, and a
    /// multi-node mapping covers each of them.
    pub open spec fn consistent(local: RankId, size: u32, topology: Topology) -> bool {
        &&& local.0 < size
        &&& topology matches Topology::MultiNode { node_of } ==> node_of@.len() == size
    }

    /// Every rank but the local one, in increasing order.
    pub open spec fn peer_ranks(self) -> Seq<RankId> {
        Seq::new(self.size as nat, |i: int| RankId(i as u32)).filter(|r: RankId| r != self.local)
    }

    /// Latency tier of the way from the local rank to `other`.
    pub open spec fn tier(self, other: RankId) -> LatencyTier {
        if other == self.local || self.topology.same_host(self.local, other) {
            LatencyTier::IntraNode
        } else {
            LatencyTier::IntraRack
        }
    }

    /// Construct a world from explicit parts. Returns `None` if `local` is not below `size` or
    /// if a multi-node mapping has the wrong length.
    pub fn new(local: RankId, size: u32, topology: Topology) -> (r: Option<World>)
        ensures
            r is Some <==> World::consistent(local, size, topology),
            r matches Some(w) ==> w.local == local && w.size == size && w.topology == topology,
    {
        if local.0 >= size {
            return None;
        }
        if let Topology::MultiNode { node_of } = &topology {
            if node_of.len() as u64 != size as u64 {
                return None;
            }
        }
        Some(World { local, size, topology })
    }

    /// Canonical single-rank world.
    pub fn singleton() -> (w: World)
        ensures
            w.local == RankId(0),
            w.size == 1,
            w.topology is SingleNode,
    {
        World { local: RankId(0), size: 1, topology: Topology::SingleNode }
    }

    /// All non-local ranks, in increasing order.
    pub fn peers(&self) -> (r: Vec<RankId>)
        ensures
            r@ == self.peer_ranks(),
    {
        let ghost all = Seq::new(self.size as nat, |i: int| RankId(i as u32));
        let ghost keep = |r: RankId| r != self.local;
        let mut out: Vec<RankId> = Vec::new();
        let mut i: u32 = 0;
        while i < self.size
            invariant
                i <= self.size,
                all == Seq::new(self.size as nat, |i: int| RankId(i as u32)),
                keep == (|r: RankId| r != self.local),
                out@ == all.take(i as int).filter(keep),
            decreases self.size - i,
        {
            let ghost before = all.take(i as int);
            if i != self.local.0 {
                out.push(RankId(i));
            }
            proof {
                before.lemma_filter_push(RankId(i), keep);
                assert(all.take(i + 1) =~= before.push(RankId(i)));
            }
            i += 1;
        }
        proof {
            assert(all.take(self.size as int) =~= all);
        }
        out
    }

    /// Whether this world has any peers.
    pub fn has_peers(&self) -> (r: bool)
        ensures
            r == (self.size > 1),
            self.local.0 < self.size ==> (r <==> self.peer_ranks().len() > 0),
    {
        proof {
            if self.local.0 < self.size {
                peer_count(*self);
            }
        }
        self.size > 1
    }

    /// Latency tier classifying the cost of reaching `other` from this rank. A rank reaches
    /// itself, and every rank on its node, within the node.
    pub fn peer_tier(&self, other: RankId) -> (r: LatencyTier)
        ensures
            r == self.tier(other),
    {
        if other == self.local {
            return LatencyTier::IntraNode;
        }
        if self.topology.is_same_node(self.local, other) {
            LatencyTier::IntraNode
        } else {
            LatencyTier::IntraRack
        }
    }
}

impl Default for World {
    fn default() -> (w: World)
        ensures
            w.local == RankId(0),
            w.size == 1,
            w.topology is SingleNode,
    {
        World::singleton()
    }
}

/// The peers of a world are exactly its ranks other than the local one.
pub proof fn peers_are_the_other_ranks(w: World, rank: RankId)
    ensures
        w.peer_ranks().contains(rank) <==> rank.0 < w.size && rank != w.local,
{
    let all = Seq::new(w.size as nat, |i: int| RankId(i as u32));
    let keep = |r: RankId| r != w.local;
    lists::filter_membership(all, keep, rank);
    if rank.0 < w.size {
        assert(all[rank.0 as int] == rank);
    }
}

/// A world with a valid local rank has one peer fewer than it has ranks.
pub proof fn peer_count(w: World)
    requires
        w.local.0 < w.size,
    ensures
        w.peer_ranks().len() == w.size - 1,
        w.peer_ranks().no_duplicates(),
{
    let all = Seq::new(w.size as nat, |i: int| RankId(i as u32));
    let keep = |r: RankId| r != w.local;
    let k = w.local.0 as int;
    let low = all.take(k);
    let high = all.skip(k + 1);
    lists::filter_keeps_all(low, keep);
    lists::filter_keeps_all(high, keep);
    assert(all =~= low.push(w.local) + high);
    Seq::filter_distributes_over_add(low.push(w.local), high, keep);
    low.lemma_filter_push(w.local, keep);
    assert(w.peer_ranks() =~= low + high);
}

/// Sharing a node does not depend on the order in which the two ranks are named.
pub proof fn same_host_is_symmetric(t: Topology, a: RankId, b: RankId)
    ensures
        t.same_host(a, b) == t.same_host(b, a),
{
}

/// The peers come in increasing order: peer `i` is rank `i`, or rank `i + 1` from the local rank
/// on.
pub proof fn peers_are_in_order(w: World, i: int)
    requires
        w.local.0 < w.size,
        0 <= i < w.size - 1,
    ensures
        w.peer_ranks()[i].0 == (if i < w.local.0 {
            i
        } else {
            i + 1
        }),
{
    let all = Seq::new(w.size as nat, |i: int| RankId(i as u32));
    let keep = |r: RankId| r != w.local;
    let k = w.local.0 as int;
    let low = all.take(k);
    let high = all.skip(k + 1);
    lists::filter_keeps_all(low, keep);
    lists::filter_keeps_all(high, keep);
    assert(all =~= low.push(w.local) + high);
    Seq::filter_distributes_over_add(low.push(w.local), high, keep);
    low.lemma_filter_push(w.local, keep);
    assert(w.peer_ranks() =~= low + high);
}

/// On a single node every rank is reached within the node. Across nodes, a rank is reached within
/// the node if it is the local rank or both ranks are mapped to one node, and within the rack
/// otherwise. No rank is ever taken to be in another rack.
pub proof fn tiers_follow_the_nodes(w: World, other: RankId)
    ensures
        w.tier(w.local) is IntraNode,
        w.topology is SingleNode ==> w.tier(other) is IntraNode,
        w.topology matches Topology::MultiNode { node_of } ==> {
            let known = w.local.0 < node_of@.len() && other.0 < node_of@.len();
            &&& w.tier(other) is IntraNode <==> other == w.local || (known
                && node_of@[w.local.0 as int] == node_of@[other.0 as int])
            &&& w.tier(other) is IntraRack <==> !(w.tier(other) is IntraNode)
        },
        !(w.tier(other) is CrossRack),
{
}

/// The way there and the way back have the same tier.
pub proof fn tiers_are_symmetric(a: World, b: World)
    requires
        a.topology == b.topology,
    ensures
        a.tier(b.local) == b.tier(a.local),
{
}

/// A consistent world has a node for each of its ranks, and a multi-node one for no other rank.
/// On a single node it is node 0.
pub proof fn every_rank_has_a_node(w: World, rank: RankId)
    requires
        World::consistent(w.local, w.size, w.topology),
    ensures
        rank.0 < w.size ==> w.topology.host(rank) is Some,
        w.topology is MultiNode && rank.0 >= w.size ==> w.topology.host(rank) is None,
        w.topology is SingleNode ==> w.topology.host(rank) == Some(NodeId(0)),
        w.topology.host(w.local) is Some,
{
}

/// A topology spans nodes if and only if two of its ranks live on different nodes.
pub proof fn spanning_means_two_hosts(t: Topology)
    requires
        t matches Topology::MultiNode { node_of } ==> node_of@.len() <= u32::MAX,
    ensures
        t.spans_nodes() <==> exists|a: RankId, b: RankId|
            #![trigger t.host(a), t.host(b)]
            t.host(a) is Some && t.host(b) is Some && t.host(a) != t.host(b),
{
    match t {
        Topology::SingleNode => {},
        Topology::MultiNode { node_of } => {
            if t.spans_nodes() {
                let (i, j) = choose|i: int, j: int|
                    0 <= i < node_of@.len() && 0 <= j < node_of@.len() && #[trigger] node_of@[i]
                        != #[trigger] node_of@[j];
                let a = RankId(i as u32);
                let b = RankId(j as u32);
                assert(t.host(a) == Some(node_of@[i]));
                assert(t.host(b) == Some(node_of@[j]));
            }
            if exists|a: RankId, b: RankId|
                #![trigger t.host(a), t.host(b)]
                t.host(a) is Some && t.host(b) is Some && t.host(a) != t.host(b) {
                let (a, b) = choose|a: RankId, b: RankId|
                    #![trigger t.host(a), t.host(b)]
                    t.host(a) is Some && t.host(b) is Some && t.host(a) != t.host(b);
                assert(node_of@[a.0 as int] != node_of@[b.0 as int]);
            }
        },
    }
}

/// Ranks and nodes are told apart by their labels.
pub proof fn labels_are_unique(a: RankId, b: RankId, m: NodeId, n: NodeId)
    ensures
        a.label() == b.label() <==> a == b,
        m.label() == n.label() <==> m == n,
        a.label() != m.label(),
{
    reveal_strlit("r");
    reveal_strlit("n");
    text::decimal_is_unique(a.0 as nat, b.0 as nat);
    text::decimal_is_unique(m.0 as nat, n.0 as nat);
    assert(a.label().skip(1) =~= text::decimal(a.0 as nat));
    assert(b.label().skip(1) =~= text::decimal(b.0 as nat));
    assert(m.label().skip(1) =~= text::decimal(m.0 as nat));
    assert(n.label().skip(1) =~= text::decimal(n.0 as nat));
    assert(a.label()[0] != m.label()[0]);
}

/// Tiers are told apart by their labels.
pub proof fn tier_labels_differ(a: LatencyTier, b: LatencyTier)
    ensures
        a.label() == b.label() <==> a == b,
{
    reveal_strlit("intra_node");
    reveal_strlit("intra_rack");
    reveal_strlit("cross_rack");
    assert("intra_node"@[6] != "intra_rack"@[6]);
    assert("intra_node"@[0] != "cross_rack"@[0]);
    assert("intra_rack"@[0] != "cross_rack"@[0]);
}

} // verus!
