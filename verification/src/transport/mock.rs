//! In-process transport between the ranks of a simulated world.
//!
//! Every rank has a handler, and every operation is recorded in an event log, so that message
//! fidelity can be asserted exactly.

use vstd::prelude::*;
use vstd::string::*;

use crate::block::BlockId;
use crate::error::BackendError;
use crate::pool;
use crate::rank::{RankId, Topology};
use crate::transport::{BlockPayload, RankTransport, ReservationToken};

verus! {

/// Record of one cross-rank operation.
#[derive(Debug, Clone, Copy, PartialEq, Eq, Structural)]
pub enum MockEvent {
    /// A seal was announced to all peers.
    BroadcastSeal {
        /// Originating rank.
        src: RankId,
        /// Originating block.
        block_id: BlockId,
        /// Content hash announced.
        content_hash: u64,
    },
    /// A block was fetched.
    Fetch {
        /// Rank fetched from.
        src: RankId,
        /// Block being fetched.
        block_id: BlockId,
    },
    /// A payload was pushed.
    Push {
        /// Destination rank.
        dst: RankId,
        /// Payload byte length.
        bytes: usize,
    },
    /// A release was announced to all peers.
    Release {
        /// Originating rank.
        src: RankId,
        /// Block being released.
        block_id: BlockId,
    },
    /// A content hash was queried.
    QueryHash {
        /// Rank queried.
        dst: RankId,
        /// Content hash queried.
        content_hash: u64,
    },
    /// Slots were requested.
    Reserve {
        /// Rank being reserved on.
        dst: RankId,
        /// Request holding the reservation.
        req_id: u64,
        /// Slots requested.
        count: u32,
    },
    /// A reservation was surrendered.
    ReleaseReservation {
        /// Destination rank.
        dst: RankId,
        /// Token surrendered.
        token: ReservationToken,
    },
}

/// Handler of one rank.
pub trait MockPeer: Sized {
    /// Whether the handler is in a consistent state, which every operation keeps. By default
    /// every state is.
    open spec fn ready(&self) -> bool {
        true
    }

    /// Produce the payload of `block_id`.
    fn provide_block(&mut self, block_id: BlockId) -> (r: std::result::Result<
        BlockPayload,
        BackendError,
    >)
        requires
            old(self).ready(),
        ensures
            final(self).ready(),
    ;

    /// Accept a pushed payload and return the block assigned to it.
    fn accept_pushed(&mut self, payload: BlockPayload) -> (r: std::result::Result<
        BlockId,
        BackendError,
    >)
        requires
            old(self).ready(),
        ensures
            final(self).ready(),
    ;

    /// Look up a content hash.
    fn lookup_hash(&mut self, content_hash: u64) -> (r: std::result::Result<
        Option<BlockId>,
        BackendError,
    >)
        requires
            old(self).ready(),
        ensures
            final(self).ready(),
    ;

    /// A peer announced a seal. By default the announcement is ignored.
    fn on_seal_announce(
        &mut self,
        src: RankId,
        block_id: BlockId,
        content_hash: u64,
        descriptor: &[u32],
    ) -> (r: std::result::Result<(), BackendError>)
        requires
            old(self).ready(),
        ensures
            final(self).ready(),
        default_ensures
            r is Ok,
            *final(self) == *old(self),
    {
        Ok(())
    }

    /// A peer announced a release. By default the announcement is ignored.
    fn on_release_announce(&mut self, src: RankId, block_id: BlockId) -> (r: std::result::Result<
        (),
        BackendError,
    >)
        requires
            old(self).ready(),
        ensures
            final(self).ready(),
        default_ensures
            r is Ok,
            *final(self) == *old(self),
    {
        Ok(())
    }

    /// Reserve slots. By default every reservation is granted, under no token of its own.
    fn reserve(&mut self, req_id: u64, count: u32) -> (r: std::result::Result<
        ReservationToken,
        BackendError,
    >)
        requires
            old(self).ready(),
        ensures
            final(self).ready(),
        default_ensures
            r == Ok::<ReservationToken, BackendError>(ReservationToken(0)),
            *final(self) == *old(self),
    {
        Ok(ReservationToken(0))
    }

    /// Release a reservation. By default there is nothing to do.
    fn release_reservation(&mut self, token: ReservationToken) -> (r: std::result::Result<
        (),
        BackendError,
    >)
        requires
            old(self).ready(),
        ensures
            final(self).ready(),
        default_ensures
            r is Ok,
            *final(self) == *old(self),
    {
        Ok(())
    }
}

/// Handler of a rank that holds nothing and accepts everything.
#[derive(Debug, Clone, Copy, PartialEq, Eq, Structural)]
pub struct NullPeer;

impl MockPeer for NullPeer {
    fn provide_block(&mut self, block_id: BlockId) -> (r: std::result::Result<
        BlockPayload,
        BackendError,
    >)
        ensures
            r matches Ok(p) && p.size() == 0 && p.fp8_scales is None,
    {
        Ok(BlockPayload { c_kv: Vec::new(), k_rope: Vec::new(), fp8_scales: None })
    }

    fn accept_pushed(&mut self, payload: BlockPayload) -> (r: std::result::Result<
        BlockId,
        BackendError,
    >)
        ensures
            r == Ok::<BlockId, BackendError>(BlockId(0)),
    {
        Ok(BlockId(0))
    }

    fn lookup_hash(&mut self, content_hash: u64) -> (r: std::result::Result<
        Option<BlockId>,
        BackendError,
    >)
        ensures
            r == Ok::<Option<BlockId>, BackendError>(None),
    {
        Ok(None)
    }
}

/// Transport between the ranks of a simulated world.
#[derive(Debug)]
pub struct MockTransport<P: MockPeer> {
    ranks: Vec<RankId>,
    handlers: Vec<P>,
    events: Vec<MockEvent>,
    reservation_counter: u64,
    topology: Topology,
}

/// State of a simulated world.
#[verifier::ext_equal]
pub struct MockState<P> {
    /// Ranks with a handler.
    pub ranks: Seq<RankId>,
    /// Handler of each rank.
    pub handlers: Seq<P>,
    /// Event log, oldest first.
    pub events: Seq<MockEvent>,
    /// Number of the next token that the transport mints.
    pub counter: u64,
}

impl<P: MockPeer> View for MockTransport<P> {
    type V = MockState<P>;

    closed spec fn view(&self) -> MockState<P> {
        MockState {
            ranks: self.ranks@,
            handlers: self.handlers@,
            events: self.events@,
            counter: self.reservation_counter,
        }
    }
}

/// The text that reports a rank without a handler.
pub open spec fn no_peer_text(rank: RankId) -> Seq<char> {
    "MockTransport: no peer registered for rank "@ + rank.label()
}

/// Whether `e` reports that `rank` has no handler.
pub open spec fn reports_no_peer(e: BackendError, rank: RankId) -> bool {
    e matches BackendError::Other(text) && text@ == no_peer_text(rank)
}

fn no_peer(rank: RankId) -> (e: BackendError)
    ensures
        reports_no_peer(e, rank),
{
    let mut s = String::from_str("MockTransport: no peer registered for rank ");
    let label = rank.to_string();
    s.append(label.as_str());
    BackendError::Other(s)
}

impl<P> MockState<P> {
    /// Whether the world is consistent: each rank is registered once.
    pub open spec fn inv(self) -> bool {
        &&& self.ranks.len() == self.handlers.len()
        &&& self.ranks.no_duplicates()
    }

    /// Whether `after` is the world after `event` was recorded and at most the handler of `rank`
    /// was called.
    pub open spec fn called(self, after: MockState<P>, event: MockEvent, rank: RankId) -> bool {
        &&& after.ranks == self.ranks
        &&& after.events == self.events.push(event)
        &&& after.handlers.len() == self.handlers.len()
        &&& forall|i: int|
            0 <= i < self.ranks.len() && self.ranks[i] != rank ==> #[trigger] after.handlers[i]
                == self.handlers[i]
    }

    /// Whether `after` is the world after `event` was announced to every rank but `src`.
    pub open spec fn announced(self, after: MockState<P>, event: MockEvent, src: RankId) -> bool {
        &&& after.ranks == self.ranks
        &&& after.counter == self.counter
        &&& after.events == self.events.push(event)
        &&& after.handlers.len() == self.handlers.len()
        &&& forall|i: int|
            0 <= i < self.ranks.len() && self.ranks[i] == src ==> #[trigger] after.handlers[i]
                == self.handlers[i]
    }
}

/// Whether a handler's answer to a reservation becomes the transport's answer `r`: a refusal stays
/// as it is, a token of the handler's own too, and token 0 is replaced by the next number.
pub open spec fn settled(
    answer: std::result::Result<ReservationToken, BackendError>,
    r: std::result::Result<ReservationToken, BackendError>,
    counter: u64,
    next: u64,
) -> bool {
    match answer {
        Ok(token) => if token.0 == 0 {
            &&& r == Ok::<ReservationToken, BackendError>(ReservationToken(counter))
            &&& next == pool::state::successor(counter)
        } else {
            r == answer && next == counter
        },
        Err(_) => r == answer && next == counter,
    }
}

/// Ranks that hear an announcement of `src`, in order of registration.
pub open spec fn recipients(ranks: Seq<RankId>, src: RankId) -> Seq<RankId> {
    crate::lists::without(ranks, src)
}

impl MockTransport<NullPeer> {
    /// A world of `size` ranks, each with a handler that holds nothing.
    pub fn new_world(size: u32) -> (t: MockTransport<NullPeer>)
        ensures
            t.wf(),
            t@.ranks == Seq::new(size as nat, |i: int| RankId(i as u32)),
            t@.events.len() == 0,
            t@.counter == 1,
            t.spans() is SingleNode,
    {
        let mut peers: Vec<NullPeer> = Vec::new();
        let mut i: u32 = 0;
        while i < size
            invariant
                i <= size,
                peers@.len() == i,
            decreases size - i,
        {
            peers.push(NullPeer);
            i += 1;
        }
        MockTransport::with_peers(peers)
    }

    /// A world of one rank.
    pub fn singleton() -> (t: MockTransport<NullPeer>)
        ensures
            t.wf(),
            t@.ranks == seq![RankId(0)],
            t@.events.len() == 0,
            t@.counter == 1,
            t.spans() is SingleNode,
    {
        let t = MockTransport::new_world(1);
        assert(t@.ranks =~= seq![RankId(0)]);
        t
    }
}

impl<P: MockPeer> MockTransport<P> {
    /// Whether the transport is in a consistent state.
    pub closed spec fn wf(self) -> bool {
        &&& self@.inv()
        &&& self.topology is SingleNode
        &&& forall|i: int| 0 <= i < self.handlers@.len() ==> (#[trigger] self.handlers@[i]).ready()
    }

    /// In a consistent transport each rank is registered once, every handler is ready, and all
    /// ranks are on one node.
    pub proof fn wf_implies_inv(&self)
        requires
            self.wf(),
        ensures
            self@.inv(),
            self.spans() is SingleNode,
            forall|i: int|
                0 <= i < self@.handlers.len() ==> (#[trigger] self@.handlers[i]).ready(),
    {
    }

    /// A world with the given handlers, that of rank 0 first.
    pub fn with_peers(peers: Vec<P>) -> (t: MockTransport<P>)
        requires
            peers@.len() <= 0x1_0000_0000,
            forall|i: int| 0 <= i < peers@.len() ==> (#[trigger] peers@[i]).ready(),
        ensures
            t.wf(),
            t@.ranks == Seq::new(peers@.len(), |i: int| RankId(i as u32)),
            t@.handlers == peers@,
            t@.events.len() == 0,
            t@.counter == 1,
            t.spans() is SingleNode,
    {
        let mut ranks: Vec<RankId> = Vec::new();
        let mut i: usize = 0;
        while i < peers.len()
            invariant
                i <= peers@.len() <= 0x1_0000_0000,
                ranks@ == Seq::new(i as nat, |j: int| RankId(j as u32)),
            decreases peers.len() - i,
        {
            ranks.push(RankId(i as u32));
            i += 1;
            assert(ranks@ =~= Seq::new(i as nat, |j: int| RankId(j as u32)));
        }
        MockTransport {
            ranks,
            handlers: peers,
            events: Vec::new(),
            reservation_counter: 1,
            topology: Topology::SingleNode,
        }
    }

    /// Position of the handler of `rank`.
    fn find(&self, rank: RankId) -> (r: Option<usize>)
        requires
            self.wf(),
        ensures
            match r {
                Some(i) => i < self@.handlers.len() && self@.ranks[i as int] == rank,
                None => !self@.ranks.contains(rank),
            },
    {
        let mut i: usize = 0;
        while i < self.ranks.len()
            invariant
                i <= self.ranks@.len(),
                self.wf(),
                forall|j: int| 0 <= j < i ==> self.ranks@[j] != rank,
            decreases self.ranks.len() - i,
        {
            if self.ranks[i] == rank {
                return Some(i);
            }
            i += 1;
        }
        None
    }

    /// Replace the handler of `rank`, or add one, and return the previous handler.
    pub fn register_peer(&mut self, rank: RankId, peer: P) -> (previous: Option<P>)
        requires
            old(self).wf(),
            peer.ready(),
        ensures
            final(self).wf(),
            final(self)@.events == old(self)@.events,
            final(self)@.counter == old(self)@.counter,
            match previous {
                Some(p) => exists|i: int|
                    {
                        &&& 0 <= i < old(self)@.ranks.len()
                        &&& #[trigger] old(self)@.ranks[i] == rank
                        &&& p == old(self)@.handlers[i]
                        &&& final(self)@.ranks == old(self)@.ranks
                        &&& final(self)@.handlers == old(self)@.handlers.update(i, peer)
                    },
                None => {
                    &&& !old(self)@.ranks.contains(rank)
                    &&& final(self)@.ranks == old(self)@.ranks.push(rank)
                    &&& final(self)@.handlers == old(self)@.handlers.push(peer)
                },
            },
    {
        match self.find(rank) {
            Some(i) => {
                let mut p = peer;
                std::mem::swap(&mut self.handlers[i], &mut p);
                assert(old(self)@.ranks[i as int] == rank);
                Some(p)
            },
            None => {
                self.ranks.push(rank);
                self.handlers.push(peer);
                None
            },
        }
    }

    /// Snapshot of the event log.
    pub fn events(&self) -> (log: Vec<MockEvent>)
        ensures
            log@ == self@.events,
    {
        let mut log: Vec<MockEvent> = Vec::new();
        let mut i: usize = 0;
        while i < self.events.len()
            invariant
                i <= self.events@.len(),
                log@ == self.events@.take(i as int),
            decreases self.events.len() - i,
        {
            log.push(self.events[i]);
            i += 1;
            assert(log@ =~= self.events@.take(i as int));
        }
        assert(log@ =~= self.events@);
        log
    }

    /// Number of events recorded so far.
    pub fn event_count(&self) -> (n: usize)
        ensures
            n == self@.events.len(),
    {
        self.events.len()
    }

    /// Clear the event log.
    pub fn clear_events(&mut self)
        requires
            old(self).wf(),
        ensures
            final(self).wf(),
            final(self)@ == (MockState { events: Seq::empty(), ..old(self)@ }),
    {
        self.events.clear();
        assert(self@ =~= (MockState { events: Seq::empty(), ..old(self)@ }));
    }

    /// Handler of `rank`, for introspection.
    pub fn peer(&self, rank: RankId) -> (p: Option<&P>)
        requires
            self.wf(),
        ensures
            p is Some <==> self@.ranks.contains(rank),
            p matches Some(h) ==> exists|i: int|
                0 <= i < self@.ranks.len() && #[trigger] self@.ranks[i] == rank && *h
                    == self@.handlers[i],
    {
        match self.find(rank) {
            Some(i) => {
                assert(self@.ranks[i as int] == rank);
                Some(&self.handlers[i])
            },
            None => None,
        }
    }

    /// Turn the token of a handler into the token of the transport: a handler that has no token
    /// of its own gives 0, and gets the next number instead, so that every token is unique.
    pub fn settle_token(&mut self, peer_token: ReservationToken) -> (token: ReservationToken)
        requires
            old(self).wf(),
        ensures
            final(self).wf(),
            peer_token.0 != 0 ==> token == peer_token && final(self)@ == old(self)@,
            peer_token.0 == 0 ==> {
                &&& token.0 == old(self)@.counter
                &&& final(self)@ == (MockState {
                    counter: pool::state::successor(old(self)@.counter),
                    ..old(self)@
                })
            },
    {
        if peer_token.0 == 0 {
            let n: u64 = self.reservation_counter;
            self.reservation_counter = n.wrapping_add(1);
            ReservationToken(n)
        } else {
            peer_token
        }
    }

    /// Announce a seal to every rank but `src`, once each.
    pub fn announce_seal(
        &mut self,
        src: RankId,
        block_id: BlockId,
        content_hash: u64,
        descriptor: &[u32],
    ) -> (heard: Vec<RankId>)
        requires
            old(self).wf(),
        ensures
            final(self).wf(),
            old(self)@.announced(
                final(self)@,
                MockEvent::BroadcastSeal { src, block_id, content_hash },
                src,
            ),
            heard@ == recipients(old(self)@.ranks, src),
            forall|i: int|
                0 <= i < old(self)@.ranks.len() && #[trigger] old(self)@.ranks[i] != src ==> exists|
                    handler: &mut P,
                    answer: std::result::Result<(), BackendError>,
                |
                    {
                        &&& *handler == old(self)@.handlers[i]
                        &&& *final(handler) == final(self)@.handlers[i]
                        &&& #[trigger] call_ensures(
                            P::on_seal_announce,
                            (handler, src, block_id, content_hash, descriptor),
                            answer,
                        )
                    },
    {
        self.events.push(MockEvent::BroadcastSeal { src, block_id, content_hash });
        let mut heard: Vec<RankId> = Vec::new();
        let mut i: usize = 0;
        proof {
            reveal(Seq::filter);
            assert(self.ranks@.take(0) =~= Seq::<RankId>::empty());
        }
        while i < self.ranks.len()
            invariant
                i <= self.ranks@.len(),
                self.wf(),
                old(self)@.announced(
                    self@,
                    MockEvent::BroadcastSeal { src, block_id, content_hash },
                    src,
                ),
                heard@ == recipients(self.ranks@.take(i as int), src),
                forall|j: int|
                    0 <= j < i && #[trigger] old(self)@.ranks[j] != src ==> exists|
                        handler: &mut P,
                        answer: std::result::Result<(), BackendError>,
                    |
                        {
                            &&& *handler == old(self)@.handlers[j]
                            &&& *final(handler) == self@.handlers[j]
                            &&& #[trigger] call_ensures(
                                P::on_seal_announce,
                                (handler, src, block_id, content_hash, descriptor),
                                answer,
                            )
                        },
                forall|j: int|
                    i <= j < self@.ranks.len() ==> #[trigger] self@.handlers[j]
                        == old(self)@.handlers[j],
            decreases self.ranks.len() - i,
        {
            let rank = self.ranks[i];
            proof {
                crate::lists::without_push(self.ranks@.take(i as int), rank, src);
                assert(self.ranks@.take(i + 1) =~= self.ranks@.take(i as int).push(rank));
            }
            if rank != src {
                let _ = self.handlers[i].on_seal_announce(
                    src,
                    block_id,
                    content_hash,
                    descriptor,
                );
                heard.push(rank);
            }
            i += 1;
        }
        proof {
            assert(self.ranks@.take(self.ranks@.len() as int) =~= self.ranks@);
        }
        heard
    }

    /// Announce a release to every rank but `src`, once each.
    pub fn announce_freed(&mut self, src: RankId, block_id: BlockId) -> (heard: Vec<RankId>)
        requires
            old(self).wf(),
        ensures
            final(self).wf(),
            old(self)@.announced(final(self)@, MockEvent::Release { src, block_id }, src),
            heard@ == recipients(old(self)@.ranks, src),
            forall|i: int|
                0 <= i < old(self)@.ranks.len() && #[trigger] old(self)@.ranks[i] != src ==> exists|
                    handler: &mut P,
                    answer: std::result::Result<(), BackendError>,
                |
                    {
                        &&& *handler == old(self)@.handlers[i]
                        &&& *final(handler) == final(self)@.handlers[i]
                        &&& #[trigger] call_ensures(
                            P::on_release_announce,
                            (handler, src, block_id),
                            answer,
                        )
                    },
    {
        self.events.push(MockEvent::Release { src, block_id });
        let mut heard: Vec<RankId> = Vec::new();
        let mut i: usize = 0;
        proof {
            reveal(Seq::filter);
            assert(self.ranks@.take(0) =~= Seq::<RankId>::empty());
        }
        while i < self.ranks.len()
            invariant
                i <= self.ranks@.len(),
                self.wf(),
                old(self)@.announced(self@, MockEvent::Release { src, block_id }, src),
                heard@ == recipients(self.ranks@.take(i as int), src),
                forall|j: int|
                    0 <= j < i && #[trigger] old(self)@.ranks[j] != src ==> exists|
                        handler: &mut P,
                        answer: std::result::Result<(), BackendError>,
                    |
                        {
                            &&& *handler == old(self)@.handlers[j]
                            &&& *final(handler) == self@.handlers[j]
                            &&& #[trigger] call_ensures(
                                P::on_release_announce,
                                (handler, src, block_id),
                                answer,
                            )
                        },
                forall|j: int|
                    i <= j < self@.ranks.len() ==> #[trigger] self@.handlers[j]
                        == old(self)@.handlers[j],
            decreases self.ranks.len() - i,
        {
            let rank = self.ranks[i];
            proof {
                crate::lists::without_push(self.ranks@.take(i as int), rank, src);
                assert(self.ranks@.take(i + 1) =~= self.ranks@.take(i as int).push(rank));
            }
            if rank != src {
                let _ = self.handlers[i].on_release_announce(src, block_id);
                heard.push(rank);
            }
            i += 1;
        }
        proof {
            assert(self.ranks@.take(self.ranks@.len() as int) =~= self.ranks@);
        }
        heard
    }
}

impl<P: MockPeer> RankTransport for MockTransport<P> {
    closed spec fn spans(&self) -> Topology {
        self.topology
    }

    open spec fn label(&self) -> Seq<char> {
        "mock"@
    }

    open spec fn usable(&self) -> bool {
        self.wf()
    }

    fn broadcast_seal(
        &mut self,
        src: RankId,
        block_id: BlockId,
        content_hash: u64,
        descriptor: &[u32],
    ) -> (r: std::result::Result<(), BackendError>)
        ensures
            r is Ok,
            old(self)@.announced(
                final(self)@,
                MockEvent::BroadcastSeal { src, block_id, content_hash },
                src,
            ),
            forall|i: int|
                0 <= i < old(self)@.ranks.len() && #[trigger] old(self)@.ranks[i] != src ==> exists|
                    handler: &mut P,
                    answer: std::result::Result<(), BackendError>,
                |
                    {
                        &&& *handler == old(self)@.handlers[i]
                        &&& *final(handler) == final(self)@.handlers[i]
                        &&& #[trigger] call_ensures(
                            P::on_seal_announce,
                            (handler, src, block_id, content_hash, descriptor),
                            answer,
                        )
                    },
    {
        let _ = self.announce_seal(src, block_id, content_hash, descriptor);
        Ok(())
    }

    fn fetch_block(&mut self, src: RankId, block_id: BlockId) -> (r: std::result::Result<
        BlockPayload,
        BackendError,
    >)
        ensures
            old(self)@.called(final(self)@, MockEvent::Fetch { src, block_id }, src),
            final(self)@.counter == old(self)@.counter,
            if old(self)@.ranks.contains(src) {
                exists|i: int, handler: &mut P|
                    {
                        &&& 0 <= i < old(self)@.ranks.len()
                        &&& #[trigger] old(self)@.ranks[i] == src
                        &&& *handler == old(self)@.handlers[i]
                        &&& *final(handler) == final(self)@.handlers[i]
                        &&& #[trigger] call_ensures(P::provide_block, (handler, block_id), r)
                    }
            } else {
                r matches Err(e) && reports_no_peer(e, src)
            },
    {
        self.events.push(MockEvent::Fetch { src, block_id });
        match self.find(src) {
            Some(i) => {
                assert(self@.ranks[i as int] == src);
                self.handlers[i].provide_block(block_id)
            },
            None => Err(no_peer(src)),
        }
    }

    fn push_block(&mut self, dst: RankId, payload: BlockPayload) -> (r: std::result::Result<
        BlockId,
        BackendError,
    >)
        ensures
            old(self)@.called(
                final(self)@,
                MockEvent::Push { dst, bytes: payload.size_in_memory() },
                dst,
            ),
            final(self)@.counter == old(self)@.counter,
            if old(self)@.ranks.contains(dst) {
                exists|i: int, handler: &mut P|
                    {
                        &&& 0 <= i < old(self)@.ranks.len()
                        &&& #[trigger] old(self)@.ranks[i] == dst
                        &&& *handler == old(self)@.handlers[i]
                        &&& *final(handler) == final(self)@.handlers[i]
                        &&& #[trigger] call_ensures(P::accept_pushed, (handler, payload), r)
                    }
            } else {
                r matches Err(e) && reports_no_peer(e, dst)
            },
    {
        let bytes: usize = payload.byte_len();
        self.events.push(MockEvent::Push { dst, bytes });
        match self.find(dst) {
            Some(i) => {
                assert(self@.ranks[i as int] == dst);
                self.handlers[i].accept_pushed(payload)
            },
            None => Err(no_peer(dst)),
        }
    }

    fn announce_release(&mut self, src: RankId, block_id: BlockId) -> (r: std::result::Result<
        (),
        BackendError,
    >)
        ensures
            r is Ok,
            old(self)@.announced(final(self)@, MockEvent::Release { src, block_id }, src),
            forall|i: int|
                0 <= i < old(self)@.ranks.len() && #[trigger] old(self)@.ranks[i] != src ==> exists|
                    handler: &mut P,
                    answer: std::result::Result<(), BackendError>,
                |
                    {
                        &&& *handler == old(self)@.handlers[i]
                        &&& *final(handler) == final(self)@.handlers[i]
                        &&& #[trigger] call_ensures(
                            P::on_release_announce,
                            (handler, src, block_id),
                            answer,
                        )
                    },
    {
        let _ = self.announce_freed(src, block_id);
        Ok(())
    }

    fn query_hash(&mut self, dst: RankId, content_hash: u64) -> (r: std::result::Result<
        Option<BlockId>,
        BackendError,
    >)
        ensures
            old(self)@.called(final(self)@, MockEvent::QueryHash { dst, content_hash }, dst),
            final(self)@.counter == old(self)@.counter,
            if old(self)@.ranks.contains(dst) {
                exists|i: int, handler: &mut P|
                    {
                        &&& 0 <= i < old(self)@.ranks.len()
                        &&& #[trigger] old(self)@.ranks[i] == dst
                        &&& *handler == old(self)@.handlers[i]
                        &&& *final(handler) == final(self)@.handlers[i]
                        &&& #[trigger] call_ensures(P::lookup_hash, (handler, content_hash), r)
                    }
            } else {
                r matches Err(e) && reports_no_peer(e, dst)
            },
    {
        self.events.push(MockEvent::QueryHash { dst, content_hash });
        match self.find(dst) {
            Some(i) => {
                assert(self@.ranks[i as int] == dst);
                self.handlers[i].lookup_hash(content_hash)
            },
            None => Err(no_peer(dst)),
        }
    }

    fn reserve_slots(&mut self, dst: RankId, req_id: u64, count: u32) -> (r: std::result::Result<
        ReservationToken,
        BackendError,
    >)
        ensures
            old(self)@.called(final(self)@, MockEvent::Reserve { dst, req_id, count }, dst),
            if old(self)@.ranks.contains(dst) {
                exists|
                    i: int,
                    handler: &mut P,
                    answer: std::result::Result<ReservationToken, BackendError>,
                |
                    {
                        &&& 0 <= i < old(self)@.ranks.len()
                        &&& #[trigger] old(self)@.ranks[i] == dst
                        &&& *handler == old(self)@.handlers[i]
                        &&& *final(handler) == final(self)@.handlers[i]
                        &&& #[trigger] call_ensures(P::reserve, (handler, req_id, count), answer)
                        &&& settled(answer, r, old(self)@.counter, final(self)@.counter)
                    }
            } else {
                &&& r matches Err(e)
                &&& reports_no_peer(e, dst)
                &&& final(self)@.counter == old(self)@.counter
            },
    {
        self.events.push(MockEvent::Reserve { dst, req_id, count });
        match self.find(dst) {
            Some(i) => {
                assert(self@.ranks[i as int] == dst);
                match self.handlers[i].reserve(req_id, count) {
                    Ok(peer_token) => Ok(self.settle_token(peer_token)),
                    Err(e) => Err(e),
                }
            },
            None => Err(no_peer(dst)),
        }
    }

    fn release_reservation(&mut self, dst: RankId, token: ReservationToken) -> (r:
        std::result::Result<(), BackendError>)
        ensures
            old(self)@.called(final(self)@, MockEvent::ReleaseReservation { dst, token }, dst),
            final(self)@.counter == old(self)@.counter,
            if old(self)@.ranks.contains(dst) {
                exists|i: int, handler: &mut P|
                    {
                        &&& 0 <= i < old(self)@.ranks.len()
                        &&& #[trigger] old(self)@.ranks[i] == dst
                        &&& *handler == old(self)@.handlers[i]
                        &&& *final(handler) == final(self)@.handlers[i]
                        &&& #[trigger] call_ensures(P::release_reservation, (handler, token), r)
                    }
            } else {
                r matches Err(e) && reports_no_peer(e, dst)
            },
    {
        self.events.push(MockEvent::ReleaseReservation { dst, token });
        match self.find(dst) {
            Some(i) => {
                assert(self@.ranks[i as int] == dst);
                self.handlers[i].release_reservation(token)
            },
            None => Err(no_peer(dst)),
        }
    }

    fn topology(&self) -> (t: &Topology) {
        &self.topology
    }

    fn name(&self) -> (s: &'static str) {
        "mock"
    }
}

/// An announcement reaches every registered rank but the one that makes it, once each, in the order
/// of registration.
pub proof fn announcements_reach_the_others(ranks: Seq<RankId>, src: RankId, k: int)
    requires
        ranks.no_duplicates(),
    ensures
        forall|rank: RankId| #[trigger]
            recipients(ranks, src).contains(rank) <==> ranks.contains(rank) && rank != src,
        recipients(ranks, src).no_duplicates(),
        !ranks.contains(src) ==> recipients(ranks, src) == ranks,
        0 <= k < ranks.len() && ranks[k] == src ==> recipients(ranks, src) == ranks.take(k)
            + ranks.skip(k + 1),
{
    crate::lists::without_membership(ranks, src);
    if !ranks.contains(src) {
        crate::lists::without_absent(ranks, src);
    }
    if 0 <= k < ranks.len() && ranks[k] == src {
        crate::lists::without_at(ranks, k);
    }
}

/// A call is recorded as the newest event, and leaves the log of earlier events, the ranks and the
/// handlers of all other ranks.
pub proof fn calls_leave_the_other_ranks<P>(
    s: MockState<P>,
    t: MockState<P>,
    event: MockEvent,
    rank: RankId,
    i: int,
)
    requires
        s.inv(),
        s.called(t, event, rank),
        0 <= i < s.ranks.len(),
    ensures
        t.inv(),
        t.events.len() == s.events.len() + 1,
        t.events.last() == event,
        t.events.drop_last() == s.events,
        t.ranks == s.ranks,
        s.ranks[i] != rank ==> t.handlers[i] == s.handlers[i],
{
    assert(t.events.drop_last() =~= s.events);
}

/// An announcement is recorded as the newest event, and the handler of the announcing rank does not
/// hear it.
pub proof fn announcements_leave_their_source<P>(
    s: MockState<P>,
    t: MockState<P>,
    event: MockEvent,
    src: RankId,
    i: int,
)
    requires
        s.inv(),
        s.announced(t, event, src),
        0 <= i < s.ranks.len(),
    ensures
        t.inv(),
        t.events.len() == s.events.len() + 1,
        t.events.last() == event,
        t.events.drop_last() == s.events,
        t.ranks == s.ranks,
        t.counter == s.counter,
        s.ranks[i] == src ==> t.handlers[i] == s.handlers[i],
{
    assert(t.events.drop_last() =~= s.events);
}

/// Two reservations in a row that are left to the transport get different tokens, in increasing
/// order; a token of the handler's own is passed on.
pub proof fn minted_tokens_differ(
    token: ReservationToken,
    first: std::result::Result<ReservationToken, BackendError>,
    second: std::result::Result<ReservationToken, BackendError>,
    counter: u64,
    middle: u64,
    last: u64,
)
    requires
        counter < u64::MAX - 1,
        settled(Ok(ReservationToken(0)), first, counter, middle),
        settled(Ok(token), second, middle, last),
    ensures
        first matches Ok(a) && a.0 == counter,
        token.0 == 0 ==> (second matches Ok(b) && b.0 == counter + 1) && last == counter + 2,
        token.0 != 0 ==> (second matches Ok(b) && b == token) && last == counter + 1,
{
}

/// A refusal is passed on as it is and uses up no token.
pub proof fn refusals_use_no_token(
    e: BackendError,
    r: std::result::Result<ReservationToken, BackendError>,
    counter: u64,
    next: u64,
)
    requires
        settled(Err(e), r, counter, next),
    ensures
        r == Err::<ReservationToken, BackendError>(e),
        next == counter,
{
}

} // verus!
