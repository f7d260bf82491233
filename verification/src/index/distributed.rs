//! Distributed lookup: ask every peer for a content hash, first hit wins, within a budget.
//!
//! The budget of a peer is that of its latency tier, and the fan-out may run as long as the
//! slowest peer allows. A miss is always safe: the caller computes the block itself.

use std::sync::Arc;

use vstd::prelude::*;

use crate::block::{BlockId, GlobalBlockId};
use crate::error::BackendError;
use crate::rank::{LatencyTier, RankId, Topology, World};
use crate::transport::RankTransport;

verus! {

/// Time budgets per latency tier, in nanoseconds.
#[derive(Debug, Clone, Copy, PartialEq, Eq, Structural)]
pub struct TierBudget {
    /// Budget for peers on the same node.
    pub intra_node: u128,
    /// Budget for peers in the same rack.
    pub intra_rack: u128,
    /// Budget for peers in other racks.
    pub cross_rack: u128,
}

impl TierBudget {
    /// Budget of a tier.
    pub open spec fn of_tier(self, tier: LatencyTier) -> u128 {
        match tier {
            LatencyTier::IntraNode => self.intra_node,
            LatencyTier::IntraRack => self.intra_rack,
            LatencyTier::CrossRack => self.cross_rack,
        }
    }

    /// Budget of a tier.
    pub fn budget(&self, tier: LatencyTier) -> (ns: u128)
        ensures
            ns == self.of_tier(tier),
    {
        match tier {
            LatencyTier::IntraNode => self.intra_node,
            LatencyTier::IntraRack => self.intra_rack,
            LatencyTier::CrossRack => self.cross_rack,
        }
    }
}

/// A distributed-index hit.
#[derive(Debug, Clone, Copy, PartialEq, Eq, Structural)]
pub struct DistributedHit {
    /// Global identity of the matched block.
    pub global: GlobalBlockId,
    /// Whether the hit came from this rank.
    pub local: bool,
}

/// What the lookup has to do.
#[derive(Debug)]
pub struct FanOut {
    /// Peers to ask.
    pub peers: Vec<RankId>,
    /// Time that is left, in nanoseconds.
    pub remaining: u128,
}

/// What happened during a fan-out.
#[derive(Debug, Clone, Copy, PartialEq, Eq, Structural)]
pub enum FanOutEvent {
    /// The time is up.
    TimedOut,
    /// A peer holds the hash.
    Hit {
        /// Peer that answered.
        peer: RankId,
        /// Its block.
        block: BlockId,
    },
    /// A peer does not hold the hash.
    Miss {
        /// Peer that answered.
        peer: RankId,
    },
    /// A peer could not answer.
    Failed {
        /// Peer that was asked.
        peer: RankId,
    },
    /// Every peer has answered.
    Exhausted,
}

/// What an event means for the lookup.
#[derive(Debug, Clone, Copy, PartialEq, Eq, Structural)]
pub enum FanOutStep {
    /// Wait for the next event.
    Wait,
    /// The lookup is over.
    Done(Option<DistributedHit>),
}

/// The hit that a peer's answer stands for.
pub open spec fn remote_hit(peer: RankId, block: BlockId) -> DistributedHit {
    DistributedHit { global: GlobalBlockId { rank: peer, block }, local: false }
}

/// What an event means: the first hit ends the lookup, a timeout or the last answer ends it
/// without a hit, and a peer that misses or fails is passed over.
pub open spec fn step_of(event: FanOutEvent) -> FanOutStep {
    match event {
        FanOutEvent::TimedOut => FanOutStep::Done(None),
        FanOutEvent::Hit { peer, block } => FanOutStep::Done(Some(remote_hit(peer, block))),
        FanOutEvent::Miss { .. } => FanOutStep::Wait,
        FanOutEvent::Failed { .. } => FanOutStep::Wait,
        FanOutEvent::Exhausted => FanOutStep::Done(None),
    }
}

/// Result of a fan-out with the given events: that of the first event that ends it.
pub open spec fn outcome_of(events: Seq<FanOutEvent>) -> Option<DistributedHit>
    decreases events.len(),
{
    if events.len() == 0 {
        None
    } else {
        match step_of(events[0]) {
            FanOutStep::Done(result) => result,
            FanOutStep::Wait => outcome_of(events.skip(1)),
        }
    }
}

/// Decide what an event means for the lookup.
pub fn fan_out_step(event: FanOutEvent) -> (step: FanOutStep)
    ensures
        step == step_of(event),
{
    match event {
        FanOutEvent::TimedOut => FanOutStep::Done(None),
        FanOutEvent::Hit { peer, block } => FanOutStep::Done(
            Some(DistributedHit { global: GlobalBlockId::new(peer, block), local: false }),
        ),
        FanOutEvent::Miss { .. } => FanOutStep::Wait,
        FanOutEvent::Failed { .. } => FanOutStep::Wait,
        FanOutEvent::Exhausted => FanOutStep::Done(None),
    }
}

/// Result of a fan-out with the given events.
pub fn fan_out_outcome(events: &Vec<FanOutEvent>) -> (r: Option<DistributedHit>)
    ensures
        r == outcome_of(events@),
{
    let mut i: usize = 0;
    proof {
        assert(events@.skip(0) =~= events@);
    }
    while i < events.len()
        invariant
            i <= events@.len(),
            outcome_of(events@) == outcome_of(events@.skip(i as int)),
        decreases events.len() - i,
    {
        proof {
            assert(events@.skip(i as int)[0] == events@[i as int]);
            assert(events@.skip(i as int).skip(1) =~= events@.skip(i + 1));
        }
        match fan_out_step(events[i]) {
            FanOutStep::Done(result) => {
                return result;
            },
            FanOutStep::Wait => {},
        }
        i += 1;
    }
    None
}

/// The largest budget among the given peers.
pub open spec fn largest_budget(world: World, tiers: TierBudget, peers: Seq<RankId>) -> u128
    decreases peers.len(),
{
    if peers.len() == 0 {
        0
    } else {
        let rest = largest_budget(world, tiers, peers.drop_last());
        let own = tiers.of_tier(world.tier(peers.last()));
        if own > rest {
            own
        } else {
            rest
        }
    }
}

/// Distributed segment index of one rank.
#[derive(Debug)]
pub struct DistributedSegmentIndex {
    world: Arc<World>,
    tier_budget: TierBudget,
}

impl DistributedSegmentIndex {
    /// The world that the index spans.
    pub closed spec fn world_spec(self) -> World {
        *self.world
    }

    /// Budgets per tier.
    pub closed spec fn tiers(self) -> TierBudget {
        self.tier_budget
    }

    /// Construct an index over a world with the given budgets.
    pub fn new(world: Arc<World>, tier_budget: TierBudget) -> (i: DistributedSegmentIndex)
        ensures
            i.world_spec() == *world,
            i.tiers() == tier_budget,
    {
        DistributedSegmentIndex { world, tier_budget }
    }

    /// The index with other budgets.
    pub fn with_tier_multipliers(self, tier_budget: TierBudget) -> (i: DistributedSegmentIndex)
        ensures
            i.world_spec() == self.world_spec(),
            i.tiers() == tier_budget,
    {
        DistributedSegmentIndex { world: self.world, tier_budget }
    }

    /// Effective budget for reaching `peer`.
    pub fn effective_budget_for(&self, peer: RankId) -> (ns: u128)
        ensures
            ns == self.tiers().of_tier(self.world_spec().tier(peer)),
    {
        self.tier_budget.budget(self.world.peer_tier(peer))
    }

    /// The world this index spans.
    pub fn world(&self) -> (w: &Arc<World>)
        ensures
            **w == self.world_spec(),
    {
        &self.world
    }

    /// Plan a lookup after `elapsed` nanoseconds: ask every peer, for as long as the slowest
    /// tier among them allows. Without peers or without time there is nothing to do, and the
    /// lookup is a miss.
    pub fn plan_lookup(&self, elapsed: u128) -> (r: Option<FanOut>)
        ensures
            ({
                let peers = self.world_spec().peer_ranks();
                let budget = largest_budget(self.world_spec(), self.tiers(), peers);
                match r {
                    Some(plan) => {
                        &&& peers.len() > 0
                        &&& elapsed < budget
                        &&& plan.peers@ == peers
                        &&& plan.remaining == budget - elapsed
                    },
                    None => peers.len() == 0 || budget <= elapsed,
                }
            }),
    {
        let peers = self.world.peers();
        if peers.len() == 0 {
            return None;
        }
        let mut budget: u128 = 0;
        let mut i: usize = 0;
        while i < peers.len()
            invariant
                i <= peers@.len(),
                budget == largest_budget(
                    self.world_spec(),
                    self.tiers(),
                    peers@.take(i as int),
                ),
            decreases peers.len() - i,
        {
            proof {
                assert(peers@.take(i + 1).drop_last() =~= peers@.take(i as int));
            }
            let own: u128 = self.effective_budget_for(peers[i]);
            if own > budget {
                budget = own;
            }
            i += 1;
        }
        proof {
            assert(peers@.take(peers@.len() as int) =~= peers@);
        }
        if budget <= elapsed {
            return None;
        }
        Some(FanOut { peers, remaining: budget - elapsed })
    }

    /// Look up a content hash over a transport that answers at once, `elapsed` nanoseconds after
    /// the lookup began. The peers are asked in turn, until one of them holds the hash; peers
    /// that fail or miss are passed over.
    pub fn lookup_hash<T: RankTransport>(
        &self,
        transport: &mut T,
        content_hash: u64,
        elapsed: u128,
    ) -> (r: Option<DistributedHit>)
        requires
            old(transport).usable(),
        ensures
            final(transport).usable(),
            ({
                let peers = self.world_spec().peer_ranks();
                let budget = largest_budget(self.world_spec(), self.tiers(), peers);
                if peers.len() == 0 || budget <= elapsed {
                    r is None && *final(transport) == *old(transport)
                } else {
                    exists|states: Seq<T>, answers: Seq<Answer>|
                        {
                            &&& #[trigger] asked_in_turn(peers, states, answers)
                            &&& states.first() == *old(transport)
                            &&& states.last() == *final(transport)
                            &&& forall|j: int|
                                0 <= j < answers.len() ==> (#[trigger] states[j]).usable()
                                    && exists|asked: &mut T|
                                    {
                                        &&& *asked == states[j]
                                        &&& *final(asked) == states[j + 1]
                                        &&& #[trigger] call_ensures(
                                            T::query_hash,
                                            (asked, peers[j], content_hash),
                                            answers[j],
                                        )
                                    }
                            &&& r == outcome_of(events_of(peers, answers))
                        }
                }
            }),
    {
        let plan = match self.plan_lookup(elapsed) {
            Some(plan) => plan,
            None => {
                return None;
            },
        };
        let ghost peers = plan.peers@;
        let ghost mut states: Seq<T> = seq![*transport];
        let ghost mut answers: Seq<Answer> = Seq::empty();
        let mut i: usize = 0;
        while i < plan.peers.len()
            invariant
                i <= plan.peers@.len(),
                peers == plan.peers@,
                peers == self.world_spec().peer_ranks(),
                peers.len() > 0,
                elapsed < largest_budget(self.world_spec(), self.tiers(), peers),
                transport.usable(),
                answers.len() == i,
                states.len() == i + 1,
                states.first() == *old(transport),
                states.last() == *transport,
                forall|j: int| 0 <= j < i ==> !is_hit(#[trigger] answers[j]),
                forall|j: int|
                    0 <= j < answers.len() ==> (#[trigger] states[j]).usable() && exists|
                        asked: &mut T,
                    |
                        {
                            &&& *asked == states[j]
                            &&& *final(asked) == states[j + 1]
                            &&& #[trigger] call_ensures(
                                T::query_hash,
                                (asked, peers[j], content_hash),
                                answers[j],
                            )
                        },
            decreases plan.peers.len() - i,
        {
            let peer = plan.peers[i];
            let ghost before = states;
            let ghost given = answers;
            let ghost asked_state = *transport;
            let answer = transport.query_hash(peer, content_hash);
            proof {
                assert(exists|asked: &mut T|
                    {
                        &&& *asked == asked_state
                        &&& *final(asked) == *transport
                        &&& #[trigger] call_ensures(
                            T::query_hash,
                            (asked, peer, content_hash),
                            answer,
                        )
                    });
                states = states.push(*transport);
                answers = answers.push(answer);
                assert forall|j: int| 0 <= j < answers.len() implies (#[trigger] states[j]).usable()
                    && exists|asked: &mut T|
                    {
                        &&& *asked == states[j]
                        &&& *final(asked) == states[j + 1]
                        &&& #[trigger] call_ensures(
                            T::query_hash,
                            (asked, peers[j], content_hash),
                            answers[j],
                        )
                    } by {
                    assert(states[j] == before[j]);
                    if j < given.len() {
                        assert(states[j + 1] == before[j + 1]);
                        assert(answers[j] == given[j]);
                    } else {
                        assert(j == i);
                        assert(states[j] == asked_state);
                        assert(peers[j] == peer);
                        assert(answers[j] == answer);
                        assert(states[j + 1] == *transport);
                    }
                }
                outcome_of_answers(peers, answers);
            }
            let event = match answer {
                Ok(Some(block)) => FanOutEvent::Hit { peer, block },
                Ok(None) => FanOutEvent::Miss { peer },
                Err(_) => FanOutEvent::Failed { peer },
            };
            if let FanOutStep::Done(result) = fan_out_step(event) {
                assert(asked_in_turn(peers, states, answers));
                return result;
            }
            i += 1;
        }
        proof {
            outcome_of_answers(peers, answers);
            assert(asked_in_turn(peers, states, answers));
        }
        None
    }
}

/// The answer of a peer.
pub type Answer = std::result::Result<Option<BlockId>, BackendError>;

/// Whether an answer names a block.
pub open spec fn is_hit(answer: Answer) -> bool {
    answer matches Ok(block) && block is Some
}

/// What the answer of a peer means for a fan-out.
pub open spec fn event_of(peer: RankId, answer: Answer) -> FanOutEvent {
    match answer {
        Ok(Some(block)) => FanOutEvent::Hit { peer, block },
        Ok(None) => FanOutEvent::Miss { peer },
        Err(_) => FanOutEvent::Failed { peer },
    }
}

/// Events of a fan-out in which the first peers gave the given answers.
pub open spec fn events_of(peers: Seq<RankId>, answers: Seq<Answer>) -> Seq<FanOutEvent> {
    Seq::new(answers.len(), |j: int| event_of(peers[j], answers[j]))
}

/// Whether the first peers were asked in turn, one answer each, until one of them held the hash
/// or all had answered. `states` holds the transport before, between and after the questions.
pub open spec fn asked_in_turn<T>(
    peers: Seq<RankId>,
    states: Seq<T>,
    answers: Seq<Answer>,
) -> bool {
    &&& 0 < answers.len() <= peers.len()
    &&& states.len() == answers.len() + 1
    &&& forall|j: int| 0 <= j < answers.len() - 1 ==> !is_hit(#[trigger] answers[j])
    &&& answers.len() < peers.len() ==> is_hit(answers.last())
}

/// If only the last answer may be a hit, it alone determines the outcome.
proof fn outcome_of_answers(peers: Seq<RankId>, answers: Seq<Answer>)
    requires
        0 < answers.len() <= peers.len(),
        forall|j: int| 0 <= j < answers.len() - 1 ==> !is_hit(#[trigger] answers[j]),
    ensures
        outcome_of(events_of(peers, answers)) == (match answers.last() {
            Ok(Some(block)) => Some(remote_hit(peers[answers.len() - 1], block)),
            _ => None,
        }),
    decreases answers.len(),
{
    let events = events_of(peers, answers);
    assert(events[0] == event_of(peers[0], answers[0]));
    if answers.len() == 1 {
        assert(events.skip(1) =~= Seq::<FanOutEvent>::empty());
        assert(outcome_of(Seq::<FanOutEvent>::empty()) is None);
    } else {
        assert(!is_hit(answers[0]));
        assert(events.skip(1) =~= events_of(peers.skip(1), answers.skip(1)));
        assert forall|j: int| 0 <= j < answers.skip(1).len() - 1 implies !is_hit(
            #[trigger] answers.skip(1)[j],
        ) by {
            assert(answers.skip(1)[j] == answers[j + 1]);
        }
        outcome_of_answers(peers.skip(1), answers.skip(1));
        assert(answers.skip(1).last() == answers.last());
        assert(peers.skip(1)[answers.len() - 2] == peers[answers.len() - 1]);
    }
}

/// A lookup finds a block only on a peer, and finds one if a peer that was asked held it.
pub proof fn lookups_find_what_a_peer_holds<T>(
    peers: Seq<RankId>,
    states: Seq<T>,
    answers: Seq<Answer>,
)
    requires
        asked_in_turn(peers, states, answers),
    ensures
        outcome_of(events_of(peers, answers)) matches Some(hit) ==> !hit.local && peers.contains(
            hit.global.rank,
        ),
        (exists|j: int| 0 <= j < answers.len() && is_hit(#[trigger] answers[j])) ==> outcome_of(
            events_of(peers, answers),
        ) is Some,
{
    outcome_of_answers(peers, answers);
    assert(peers[answers.len() - 1] == peers[answers.len() - 1]);
    assert forall|j: int| 0 <= j < answers.len() && is_hit(#[trigger] answers[j]) implies j
        == answers.len() - 1 by {}
}

/// Every peer may take the whole budget of its tier before the fan-out ends.
pub proof fn budget_covers_every_peer(
    world: World,
    tiers: TierBudget,
    peers: Seq<RankId>,
    i: int,
)
    requires
        0 <= i < peers.len(),
    ensures
        tiers.of_tier(world.tier(peers[i])) <= largest_budget(world, tiers, peers),
    decreases peers.len(),
{
    if i < peers.len() - 1 {
        budget_covers_every_peer(world, tiers, peers.drop_last(), i);
    }
}

/// A hit is never invented: the result of a fan-out is the answer of a peer that reported a hit
/// before the fan-out ended, and it names that peer and its block.
pub proof fn hits_come_from_peers(events: Seq<FanOutEvent>)
    ensures
        outcome_of(events) matches Some(hit) ==> !hit.local && exists|i: int|
            {
                &&& 0 <= i < events.len()
                &&& #[trigger] events[i] == (FanOutEvent::Hit {
                    peer: hit.global.rank,
                    block: hit.global.block,
                })
                &&& forall|j: int| 0 <= j < i ==> step_of(#[trigger] events[j]) is Wait
            },
    decreases events.len(),
{
    if events.len() > 0 {
        if step_of(events[0]) is Wait {
            let rest = events.skip(1);
            hits_come_from_peers(rest);
            if let Some(hit) = outcome_of(rest) {
                let i = choose|i: int|
                    {
                        &&& 0 <= i < rest.len()
                        &&& #[trigger] rest[i] == (FanOutEvent::Hit {
                            peer: hit.global.rank,
                            block: hit.global.block,
                        })
                        &&& forall|j: int| 0 <= j < i ==> step_of(#[trigger] rest[j]) is Wait
                    };
                assert(events[i + 1] == rest[i]);
                assert forall|j: int| 0 <= j < i + 1 implies step_of(
                    #[trigger] events[j],
                ) is Wait by {
                    if j > 0 {
                        assert(rest[j - 1] == events[j]);
                    }
                }
            }
        } else {
            assert(events[0] == events[0]);
        }
    }
}

/// Peers that fail or miss do not hide a later hit.
pub proof fn failures_are_passed_over(events: Seq<FanOutEvent>, first: FanOutEvent)
    requires
        first is Miss || first is Failed,
    ensures
        outcome_of(seq![first] + events) == outcome_of(events),
{
    let all = seq![first] + events;
    assert(all[0] == first);
    assert(all.skip(1) =~= events);
}

/// Whether an event only means that one peer is of no help.
pub open spec fn is_passed_over(event: FanOutEvent) -> bool {
    event is Miss || event is Failed
}

/// The first event that is more than a peer of no help decides: a hit is the result, with the peer
/// and its block; the end of the time or of the answers is a miss. Without such an event there is
/// no hit either.
pub proof fn first_event_decides(events: Seq<FanOutEvent>, i: int)
    requires
        0 <= i <= events.len(),
        forall|j: int| 0 <= j < i ==> is_passed_over(#[trigger] events[j]),
    ensures
        i == events.len() ==> outcome_of(events) is None,
        i < events.len() && (events[i] is TimedOut || events[i] is Exhausted) ==> outcome_of(
            events,
        ) is None,
        i < events.len() ==> (events[i] matches FanOutEvent::Hit { peer, block } ==> {
            &&& outcome_of(events) matches Some(hit)
            &&& hit.global.rank == peer
            &&& hit.global.block == block
            &&& !hit.local
        }),
    decreases events.len(),
{
    if i > 0 {
        let rest = events.skip(1);
        assert(is_passed_over(events[0]));
        assert forall|j: int| 0 <= j < i - 1 implies is_passed_over(#[trigger] rest[j]) by {
            assert(rest[j] == events[j + 1]);
        }
        first_event_decides(rest, i - 1);
        if i < events.len() {
            assert(rest[i - 1] == events[i]);
        }
    }
}

/// The first peer, in the order of asking, that names a block determines the result: that peer and
/// that block. If none does, the lookup is a miss.
pub proof fn first_answer_with_a_block_wins(peers: Seq<RankId>, answers: Seq<Answer>, i: int)
    requires
        answers.len() <= peers.len(),
        0 <= i <= answers.len(),
        forall|j: int|
            0 <= j < i ==> #[trigger] answers[j] is Err || answers[j] == Ok::<
                Option<BlockId>,
                BackendError,
            >(None),
    ensures
        i == answers.len() ==> outcome_of(events_of(peers, answers)) is None,
        i < answers.len() ==> (answers[i] matches Ok(Some(block)) ==> {
            &&& outcome_of(events_of(peers, answers)) matches Some(hit)
            &&& hit.global.rank == peers[i]
            &&& hit.global.block == block
            &&& !hit.local
        }),
{
    let events = events_of(peers, answers);
    assert forall|j: int| 0 <= j < i implies is_passed_over(#[trigger] events[j]) by {
        assert(events[j] == event_of(peers[j], answers[j]));
    }
    first_event_decides(events, i);
}

/// The fan-out may run exactly as long as its slowest peer: the budget of one of the peers is the
/// whole.
pub proof fn some_peer_has_the_whole_budget(world: World, tiers: TierBudget, peers: Seq<RankId>)
    requires
        peers.len() > 0,
    ensures
        exists|i: int|
            0 <= i < peers.len() && largest_budget(world, tiers, peers) == tiers.of_tier(
                world.tier(#[trigger] peers[i]),
            ),
    decreases peers.len(),
{
    let rest = peers.drop_last();
    let own = tiers.of_tier(world.tier(peers.last()));
    if own > largest_budget(world, tiers, rest) || rest.len() == 0 {
        assert(peers[peers.len() - 1] == peers.last());
        assert(largest_budget(world, tiers, peers) == own);
    } else {
        some_peer_has_the_whole_budget(world, tiers, rest);
        let i = choose|i: int|
            0 <= i < rest.len() && largest_budget(world, tiers, rest) == tiers.of_tier(
                world.tier(#[trigger] rest[i]),
            );
        assert(peers[i] == rest[i]);
    }
}

/// A peer on the node of the local rank has the budget for the node, every other peer the one for
/// the rack.
pub proof fn budgets_follow_the_nodes(world: World, tiers: TierBudget, peer: RankId)
    ensures
        world.topology is SingleNode ==> tiers.of_tier(world.tier(peer)) == tiers.intra_node,
        world.topology matches Topology::MultiNode { node_of } ==> {
            let known = world.local.0 < node_of@.len() && peer.0 < node_of@.len();
            tiers.of_tier(world.tier(peer)) == if peer == world.local || (known
                && node_of@[world.local.0 as int] == node_of@[peer.0 as int]) {
                tiers.intra_node
            } else {
                tiers.intra_rack
            }
        },
        tiers.of_tier(LatencyTier::CrossRack) == tiers.cross_rack,
{
}

/// A lookup that misses has asked every peer, and none named a block. One that hits has asked up to
/// the peer that named the block, and no further.
pub proof fn peers_are_asked_until_one_hits<T>(
    peers: Seq<RankId>,
    states: Seq<T>,
    answers: Seq<Answer>,
    j: int,
)
    requires
        asked_in_turn(peers, states, answers),
        0 <= j < answers.len(),
    ensures
        match outcome_of(events_of(peers, answers)) {
            None => answers.len() == peers.len() && !(answers[j] matches Ok(Some(_))),
            Some(hit) => {
                &&& hit.global.rank == peers[answers.len() - 1]
                &&& answers.last() == Ok::<Option<BlockId>, BackendError>(Some(hit.global.block))
                &&& j < answers.len() - 1 ==> !(answers[j] matches Ok(Some(_)))
            },
        },
{
    outcome_of_answers(peers, answers);
    if j < answers.len() - 1 {
        assert(!is_hit(answers[j]));
    }
}

} // verus!
