//! Moving a request to another rank: reserve, stream, commit.
//!
//! 1. Reserve as many slots on the target as the request has blocks.
//! 2. Push a copy of each block. If one cannot be exported or pushed, give the reservation back
//!    and keep every block.
//! 3. Once every block has arrived, release the request on this rank.
//!
//! A [`Transfer`] is the state of one such move between two answers of the transport. The
//! manager's [`TesseraBlockManager::begin_transfer`] and [`TesseraBlockManager::step_transfer`]
//! decide what to do next; whoever runs the transfer performs it and reports the answer.

use vstd::prelude::*;

use crate::block::BlockId;
use crate::block_manager::state::{self, ManagerState};
use crate::block_manager::TesseraBlockManager;
use crate::content_hash::ContentHasher;
use crate::device::DeviceBackend;
use crate::error::{BackendError, Result, TesseraError};
use crate::pool;
use crate::rank::RankId;
use crate::transport::{BlockPayload, RankTransport, ReservationToken};

verus! {

/// Why a transfer was abandoned.
#[derive(Debug, Clone, Copy, PartialEq, Eq, Structural)]
pub enum AbortReason {
    /// The target refused the reservation.
    ReserveFailed,
    /// A block could not be read.
    ExportFailed,
    /// A block did not arrive.
    PushFailed,
}

impl AbortReason {
    /// Name of the reason in metric labels.
    pub open spec fn name(self) -> Seq<char> {
        match self {
            AbortReason::ReserveFailed => "reserve_failed"@,
            AbortReason::ExportFailed => "export_failed"@,
            AbortReason::PushFailed => "push_failed"@,
        }
    }

    /// Metric label of the reason.
    pub fn label(self) -> (s: &'static str)
        ensures
            s@ == self.name(),
    {
        match self {
            AbortReason::ReserveFailed => "reserve_failed",
            AbortReason::ExportFailed => "export_failed",
            AbortReason::PushFailed => "push_failed",
        }
    }
}

/// What a transfer waits for.
#[derive(Debug)]
pub enum TransferPhase {
    /// The answer to the reservation.
    Reserving,
    /// The arrival of block number `sent` of the list.
    Streaming {
        /// Token of the reservation.
        token: ReservationToken,
        /// Blocks that have arrived.
        sent: usize,
    },
    /// The end of the rollback.
    RollingBack {
        /// What went wrong.
        cause: TesseraError,
        /// Where it went wrong.
        reason: AbortReason,
    },
}

/// A transfer in progress.
#[derive(Debug)]
pub struct Transfer {
    /// Request that moves.
    pub req_id: u64,
    /// Rank it moves to.
    pub target: RankId,
    /// Blocks of the request when the transfer began.
    pub blocks: Vec<u32>,
    /// What the transfer waits for.
    pub phase: TransferPhase,
}

/// What has to be done next.
#[derive(Debug)]
pub enum TransferAction {
    /// Reserve `count` slots for `req_id` on `target`.
    Reserve {
        /// Rank to reserve on.
        target: RankId,
        /// Request that the slots are for.
        req_id: u64,
        /// Number of slots.
        count: u32,
    },
    /// Push `payload` to `target`.
    Push {
        /// Rank to push to.
        target: RankId,
        /// Copy of the next block.
        payload: BlockPayload,
    },
    /// Give the reservation back.
    Rollback {
        /// Rank that holds the reservation.
        target: RankId,
        /// Token of the reservation.
        token: ReservationToken,
    },
}

/// What the transport answered.
#[derive(Debug)]
pub enum TransferEvent {
    /// To a reservation.
    Reserved(std::result::Result<ReservationToken, BackendError>),
    /// To a push.
    Pushed(std::result::Result<BlockId, BackendError>),
    /// To a rollback, whether or not it succeeded.
    RolledBack,
}

/// How a transfer goes on.
#[derive(Debug)]
pub enum TransferStep {
    /// Perform the action, then report the answer.
    Perform(Transfer, TransferAction),
    /// Every block has arrived and the request was released; the number of blocks.
    Committed(u32),
    /// The request stays on this rank.
    Aborted(TesseraError, AbortReason),
}

impl Transfer {
    /// Whether `event` answers what the transfer waits for.
    pub open spec fn expects(self, event: TransferEvent) -> bool {
        match self.phase {
            TransferPhase::Reserving => event is Reserved,
            TransferPhase::Streaming { sent, .. } => event is Pushed && sent < self.blocks@.len(),
            TransferPhase::RollingBack { .. } => event is RolledBack,
        }
    }

    /// Whether `other` moves the same blocks of the same request to the same rank.
    pub open spec fn same_move(self, other: Transfer) -> bool {
        &&& other.req_id == self.req_id
        &&& other.target == self.target
        &&& other.blocks == self.blocks
    }
}

/// Number of slots to reserve for `blocks` blocks.
pub open spec fn slots_for(blocks: nat) -> u32 {
    if blocks > u32::MAX {
        u32::MAX
    } else {
        blocks as u32
    }
}

/// Number of slots to reserve for a list of blocks.
fn slot_count(blocks: &Vec<u32>) -> (n: u32)
    ensures
        n == slots_for(blocks@.len()),
{
    if blocks.len() as u64 > u32::MAX as u64 {
        u32::MAX
    } else {
        blocks.len() as u32
    }
}

/// What sending block number `i` of a transfer comes to: a push of that block, or a rollback if
/// the block cannot be read.
pub open spec fn sends_block<B: DeviceBackend>(
    transfer: Transfer,
    token: ReservationToken,
    i: int,
    before: ManagerState,
    after: ManagerState,
    device: B,
    step: TransferStep,
) -> bool {
    let id = transfer.blocks@[i];
    &&& step matches TransferStep::Perform(next, action)
    &&& transfer.same_move(next)
    &&& match action {
        TransferAction::Push { target, payload } => {
            &&& target == transfer.target
            &&& before.pool.live(id)
            &&& before.holds(id, payload)
            &&& next.phase == (TransferPhase::Streaming { token, sent: i as usize })
            &&& after == before.touched_for_transfer(id)
        },
        TransferAction::Rollback { target, token: given } => {
            &&& target == transfer.target
            &&& given == token
            &&& next.phase matches TransferPhase::RollingBack { cause, reason }
            &&& reason == AbortReason::ExportFailed
            &&& if before.pool.live(id) {
                state::unreadable(cause, before, device)
            } else {
                cause == TesseraError::UnknownBlock(id)
            }
            &&& before.same_but_touched(after)
        },
        TransferAction::Reserve { .. } => false,
    }
}

impl<B: DeviceBackend, H: ContentHasher> TesseraBlockManager<B, H> {
    /// Begin to move the blocks of `req_id` to `target`. Without blocks there is nothing to do.
    pub fn begin_transfer(&self, req_id: u64, target: RankId) -> (r: Option<
        (Transfer, TransferAction),
    >)
        ensures
            match r {
                Some((transfer, action)) => {
                    &&& self@.pool.blocks_of(req_id).len() > 0
                    &&& transfer.req_id == req_id
                    &&& transfer.target == target
                    &&& transfer.blocks@ == self@.pool.blocks_of(req_id)
                    &&& transfer.phase is Reserving
                    &&& action == (TransferAction::Reserve {
                        target,
                        req_id,
                        count: slots_for(self@.pool.blocks_of(req_id).len()),
                    })
                },
                None => self@.pool.blocks_of(req_id).len() == 0,
            },
    {
        let blocks = self.request_blocks(req_id);
        if blocks.len() == 0 {
            return None;
        }
        let count: u32 = slot_count(&blocks);
        let transfer = Transfer { req_id, target, blocks, phase: TransferPhase::Reserving };
        Some((transfer, TransferAction::Reserve { target, req_id, count }))
    }

    /// Send block number `i` of a transfer.
    fn send_block(&mut self, transfer: Transfer, token: ReservationToken, i: usize) -> (step:
        TransferStep)
        requires
            old(self).wf(),
            i < transfer.blocks@.len(),
        ensures
            final(self).wf(),
            old(self).same_setup(*final(self)),
            final(self).device() == old(self).device(),
            sends_block(
                transfer,
                token,
                i as int,
                old(self)@,
                final(self)@,
                old(self).device(),
                step,
            ),
            old(self)@.same_but_touched(final(self)@),
    {
        let id: u32 = transfer.blocks[i];
        let target = transfer.target;
        proof {
            let s = self@;
            pool::laws::touch_is_only_a_touch(s.pool, s.pool, id);
            pool::laws::touch_is_only_a_touch(s.pool, s.pool.touch(id), id);
        }
        match self.export_payload(BlockId(id)) {
            Ok(payload) => TransferStep::Perform(
                Transfer {
                    req_id: transfer.req_id,
                    target,
                    blocks: transfer.blocks,
                    phase: TransferPhase::Streaming { token, sent: i },
                },
                TransferAction::Push { target, payload },
            ),
            Err(cause) => TransferStep::Perform(
                Transfer {
                    req_id: transfer.req_id,
                    target,
                    blocks: transfer.blocks,
                    phase: TransferPhase::RollingBack { cause, reason: AbortReason::ExportFailed },
                },
                TransferAction::Rollback { target, token },
            ),
        }
    }

    /// Go on with a transfer after an answer of the transport.
    pub fn step_transfer(&mut self, transfer: Transfer, event: TransferEvent) -> (step:
        TransferStep)
        requires
            old(self).wf(),
            transfer.expects(event),
            transfer.blocks@.len() > 0,
        ensures
            final(self).wf(),
            old(self).same_setup(*final(self)),
            final(self).device() == old(self).device(),
            match (transfer.phase, event) {
                (TransferPhase::Reserving, TransferEvent::Reserved(Ok(token))) => sends_block(
                    transfer,
                    token,
                    0,
                    old(self)@,
                    final(self)@,
                    old(self).device(),
                    step,
                ),
                (TransferPhase::Reserving, TransferEvent::Reserved(Err(e))) => {
                    &&& step == TransferStep::Aborted(
                        TesseraError::Backend(e),
                        AbortReason::ReserveFailed,
                    )
                    &&& final(self)@ == old(self)@
                },
                (TransferPhase::Streaming { token, sent }, TransferEvent::Pushed(Ok(_))) => if sent
                    + 1 < transfer.blocks@.len() {
                    sends_block(
                        transfer,
                        token,
                        sent + 1,
                        old(self)@,
                        final(self)@,
                        old(self).device(),
                        step,
                    )
                } else {
                    &&& step == TransferStep::Committed(slots_for(transfer.blocks@.len()))
                    &&& final(self)@ == old(self)@.with_pool(
                        old(self)@.pool.release_request(transfer.req_id),
                    )
                },
                (TransferPhase::Streaming { token, sent }, TransferEvent::Pushed(Err(e))) => {
                    &&& step matches TransferStep::Perform(next, action)
                    &&& transfer.same_move(next)
                    &&& next.phase == (TransferPhase::RollingBack {
                        cause: TesseraError::Backend(e),
                        reason: AbortReason::PushFailed,
                    })
                    &&& action == (TransferAction::Rollback { target: transfer.target, token })
                    &&& final(self)@ == old(self)@
                },
                (TransferPhase::RollingBack { cause, reason }, TransferEvent::RolledBack) => {
                    &&& step == TransferStep::Aborted(cause, reason)
                    &&& final(self)@ == old(self)@
                },
                _ => false,
            },
            !(step is Committed) ==> old(self)@.same_but_touched(final(self)@),
            step matches TransferStep::Perform(next, _) ==> next.blocks@ == transfer.blocks@,
    {
        match event {
            TransferEvent::Reserved(answer) => match answer {
                Ok(token) => self.send_block(transfer, token, 0),
                Err(e) => TransferStep::Aborted(
                    TesseraError::Backend(e),
                    AbortReason::ReserveFailed,
                ),
            },
            TransferEvent::Pushed(answer) => match transfer.phase {
                TransferPhase::Streaming { token, sent } => match answer {
                    Ok(_) => {
                        if sent < transfer.blocks.len() - 1 {
                            let next = Transfer {
                                req_id: transfer.req_id,
                                target: transfer.target,
                                blocks: transfer.blocks,
                                phase: TransferPhase::Reserving,
                            };
                            self.send_block(next, token, sent + 1)
                        } else {
                            let moved: u32 = slot_count(&transfer.blocks);
                            let _ = self.release_request(transfer.req_id);
                            TransferStep::Committed(moved)
                        }
                    },
                    Err(e) => TransferStep::Perform(
                        Transfer {
                            req_id: transfer.req_id,
                            target: transfer.target,
                            blocks: transfer.blocks,
                            phase: TransferPhase::RollingBack {
                                cause: TesseraError::Backend(e),
                                reason: AbortReason::PushFailed,
                            },
                        },
                        TransferAction::Rollback { target: transfer.target, token },
                    ),
                },
                _ => unreached(),
            },
            TransferEvent::RolledBack => match transfer.phase {
                TransferPhase::RollingBack { cause, reason } => TransferStep::Aborted(
                    cause,
                    reason,
                ),
                _ => unreached(),
            },
        }
    }

    /// Move every block of `req_id` to rank `target`, all or none. Returns the number of blocks
    /// moved. Without blocks the transport is not called. If the transfer fails, every block
    /// stays on this rank with its references and its bytes.
    pub fn transfer_request_to_rank<T: RankTransport>(
        &mut self,
        req_id: u64,
        target: RankId,
        transport: &mut T,
    ) -> (r: Result<u32>)
        requires
            old(self).wf(),
            old(transport).usable(),
        ensures
            final(self).wf(),
            final(transport).usable(),
            old(self).same_setup(*final(self)),
            final(self).device() == old(self).device(),
            match r {
                Ok(n) => {
                    &&& n == slots_for(old(self)@.pool.blocks_of(req_id).len())
                    &&& n > 0 ==> moved_away(old(self)@, final(self)@, req_id)
                },
                Err(_) => old(self)@.same_but_touched(final(self)@),
            },
            if old(self)@.pool.blocks_of(req_id).len() == 0 {
                &&& r == Ok::<u32, TesseraError>(0)
                &&& final(self)@ == old(self)@
                &&& *final(transport) == *old(transport)
            } else {
                exists|states: Seq<T>, log: Seq<(TransferAction, TransferEvent)>|
                    {
                        &&& #[trigger] well_run(
                            old(self)@,
                            old(self).device(),
                            req_id,
                            target,
                            states,
                            log,
                            r,
                        )
                        &&& states.first() == *old(transport)
                        &&& states.last() == *final(transport)
                        &&& forall|j: int| 0 <= j < log.len() ==> (#[trigger] states[j]).usable()
                        &&& forall|j: int|
                            0 <= j < log.len() && (#[trigger] log[j]).0 is Reserve
                                && log[j].1 is Reserved ==> exists|
                                called: &mut T,
                            |
                                {
                                    &&& *called == states[j]
                                    &&& *final(called) == states[j + 1]
                                    &&& #[trigger] call_ensures(
                                        T::reserve_slots,
                                        (
                                            called,
                                            log[j].0->Reserve_target,
                                            log[j].0->Reserve_req_id,
                                            log[j].0->Reserve_count,
                                        ),
                                        log[j].1->Reserved_0,
                                    )
                                }
                        &&& forall|j: int|
                            0 <= j < log.len() && (#[trigger] log[j]).0 is Push
                                && log[j].1 is Pushed ==> exists|
                                called: &mut T,
                            |
                                {
                                    &&& *called == states[j]
                                    &&& *final(called) == states[j + 1]
                                    &&& #[trigger] call_ensures(
                                        T::push_block,
                                        (called, log[j].0->Push_target, log[j].0->Push_payload),
                                        log[j].1->Pushed_0,
                                    )
                                }
                        &&& forall|j: int|
                            0 <= j < log.len() && (#[trigger] log[j]).0 is Rollback
                                && log[j].1 is RolledBack ==> exists|
                                called: &mut T,
                                answer: std::result::Result<(), BackendError>,
                            |
                                {
                                    &&& *called == states[j]
                                    &&& *final(called) == states[j + 1]
                                    &&& #[trigger] call_ensures(
                                        T::release_reservation,
                                        (called, log[j].0->Rollback_target, log[j].0->Rollback_token),
                                        answer,
                                    )
                                }
                    }
            },
    {
        let ghost s0 = self@;
        let ghost device = self.device();
        let (mut transfer, mut action) = match self.begin_transfer(req_id, target) {
            Some(start) => start,
            None => {
                return Ok(0);
            },
        };
        let ghost mut states: Seq<T> = seq![*transport];
        let ghost mut log: Seq<(TransferAction, TransferEvent)> = Seq::empty();
        proof {
            pool::laws::touching_nothing(s0.pool);
            assert(transfer.blocks@.len() == transfer.blocks.len());
        }
        loop
            invariant
                self.wf(),
                old(self).same_setup(*self),
                transport.usable(),
                s0 == old(self)@,
                device == old(self).device(),
                device == self.device(),
                s0.same_but_touched(self@),
                transfer.req_id == req_id,
                transfer.target == target,
                transfer.blocks@ == s0.pool.blocks_of(req_id),
                0 < transfer.blocks@.len() <= usize::MAX,
                under_way(s0, device, transfer, action, log),
                states.len() == log.len() + 1,
                states.first() == *old(transport),
                states.last() == *transport,
                forall|j: int| 0 <= j < log.len() ==> (#[trigger] states[j]).usable(),
                forall|j: int|
                    0 <= j < log.len() && (#[trigger] log[j]).0 is Reserve
                        && log[j].1 is Reserved ==> exists|
                        called: &mut T,
                    |
                        {
                            &&& *called == states[j]
                            &&& *final(called) == states[j + 1]
                            &&& #[trigger] call_ensures(
                                T::reserve_slots,
                                (
                                    called,
                                    log[j].0->Reserve_target,
                                    log[j].0->Reserve_req_id,
                                    log[j].0->Reserve_count,
                                ),
                                log[j].1->Reserved_0,
                            )
                        },
                forall|j: int|
                    0 <= j < log.len() && (#[trigger] log[j]).0 is Push
                        && log[j].1 is Pushed ==> exists|
                        called: &mut T,
                    |
                        {
                            &&& *called == states[j]
                            &&& *final(called) == states[j + 1]
                            &&& #[trigger] call_ensures(
                                T::push_block,
                                (called, log[j].0->Push_target, log[j].0->Push_payload),
                                log[j].1->Pushed_0,
                            )
                        },
                forall|j: int|
                    0 <= j < log.len() && (#[trigger] log[j]).0 is Rollback
                        && log[j].1 is RolledBack ==> exists|
                        called: &mut T,
                        answer: std::result::Result<(), BackendError>,
                    |
                        {
                            &&& *called == states[j]
                            &&& *final(called) == states[j + 1]
                            &&& #[trigger] call_ensures(
                                T::release_reservation,
                                (called, log[j].0->Rollback_target, log[j].0->Rollback_token),
                                answer,
                            )
                        },
            decreases transfer_measure(transfer),
        {
            let ghost performed = action;
            let ghost called_state = *transport;
            let ghost before = states;
            let ghost written = log;
            let event = match action {
                TransferAction::Reserve { target, req_id, count } => TransferEvent::Reserved(
                    transport.reserve_slots(target, req_id, count),
                ),
                TransferAction::Push { target, payload } => TransferEvent::Pushed(
                    transport.push_block(target, payload),
                ),
                TransferAction::Rollback { target, token } => {
                    let _ = transport.release_reservation(target, token);
                    TransferEvent::RolledBack
                },
            };
            proof {
                states = states.push(*transport);
                log = log.push((performed, event));
                assert(before.last() == called_state);
                assert forall|j: int| 0 <= j < log.len() implies (#[trigger] states[j]).usable() by {
                    assert(states[j] == before[j]);
                }
                assert forall|j: int|
                    0 <= j < log.len() && (#[trigger] log[j]).0 is Reserve
                        && log[j].1 is Reserved implies exists|
                        called: &mut T,
                    |
                        {
                            &&& *called == states[j]
                            &&& *final(called) == states[j + 1]
                            &&& #[trigger] call_ensures(
                                T::reserve_slots,
                                (
                                    called,
                                    log[j].0->Reserve_target,
                                    log[j].0->Reserve_req_id,
                                    log[j].0->Reserve_count,
                                ),
                                log[j].1->Reserved_0,
                            )
                        } by {
                    assert(states[j] == before[j]);
                    if j < written.len() {
                        assert(states[j + 1] == before[j + 1]);
                        assert(log[j] == written[j]);
                    } else {
                        assert(states[j] == called_state);
                        assert(states[j + 1] == *transport);
                        assert(log[j] == (performed, event));
                    }
                }
                assert forall|j: int|
                    0 <= j < log.len() && (#[trigger] log[j]).0 is Push
                        && log[j].1 is Pushed implies exists|
                        called: &mut T,
                    |
                        {
                            &&& *called == states[j]
                            &&& *final(called) == states[j + 1]
                            &&& #[trigger] call_ensures(
                                T::push_block,
                                (called, log[j].0->Push_target, log[j].0->Push_payload),
                                log[j].1->Pushed_0,
                            )
                        } by {
                    assert(states[j] == before[j]);
                    if j < written.len() {
                        assert(states[j + 1] == before[j + 1]);
                        assert(log[j] == written[j]);
                    } else {
                        assert(states[j] == called_state);
                        assert(states[j + 1] == *transport);
                        assert(log[j] == (performed, event));
                    }
                }
                assert forall|j: int|
                    0 <= j < log.len() && (#[trigger] log[j]).0 is Rollback
                        && log[j].1 is RolledBack implies exists|
                        called: &mut T,
                        answer: std::result::Result<(), BackendError>,
                    |
                        {
                            &&& *called == states[j]
                            &&& *final(called) == states[j + 1]
                            &&& #[trigger] call_ensures(
                                T::release_reservation,
                                (called, log[j].0->Rollback_target, log[j].0->Rollback_token),
                                answer,
                            )
                        } by {
                    assert(states[j] == before[j]);
                    if j < written.len() {
                        assert(states[j + 1] == before[j + 1]);
                        assert(log[j] == written[j]);
                    } else {
                        assert(states[j] == called_state);
                        assert(states[j + 1] == *transport);
                        assert(log[j] == (performed, event));
                    }
                }
            }
            let ghost s1 = self@;
            let ghost asked = transfer;
            match self.step_transfer(transfer, event) {
                TransferStep::Perform(next, todo) => {
                    proof {
                        pool::laws::touches_compose(s0.pool, s1.pool, self@.pool);
                        goes_on(s0, s1, device, asked, performed, written, event, next, todo);
                    }
                    transfer = next;
                    action = todo;
                },
                TransferStep::Committed(n) => {
                    proof {
                        assert(s1.pool.blocks_of(req_id) == s0.pool.blocks_of(req_id));
                        assert(moved_away(s0, self@, req_id));
                        ends(s0, device, asked, performed, written, event, states, Ok(n));
                    }
                    return Ok(n);
                },
                TransferStep::Aborted(cause, _) => {
                    proof {
                        pool::laws::touches_compose(s0.pool, s1.pool, self@.pool);
                        ends(s0, device, asked, performed, written, event, states, Err(cause));
                    }
                    return Err(cause);
                },
            }
        }
    }
}

/// Whether the first `m` blocks of a request were pushed, each as an exact copy, after a
/// reservation had been granted under `token`, and all of them arrived but for the last, of which
/// nothing is said.
pub open spec fn streamed(
    s: ManagerState,
    req: u64,
    target: RankId,
    token: ReservationToken,
    log: Seq<(TransferAction, TransferEvent)>,
    m: int,
) -> bool {
    let blocks = s.pool.blocks_of(req);
    &&& 0 <= m <= blocks.len()
    &&& m < log.len()
    &&& log[0].0 == (TransferAction::Reserve { target, req_id: req, count: slots_for(blocks.len()) })
    &&& log[0].1 == TransferEvent::Reserved(Ok(token))
    &&& forall|j: int|
        1 <= j <= m ==> {
            &&& (#[trigger] log[j]).0 matches TransferAction::Push { target: dst, payload }
            &&& dst == target
            &&& s.pool.live(blocks[j - 1])
            &&& s.holds(blocks[j - 1], payload)
            &&& log[j].1 is Pushed
        }
    &&& forall|j: int| 1 <= j < m ==> arrived((#[trigger] log[j]).1)
}

/// Whether an answer says that a block arrived.
pub open spec fn arrived(event: TransferEvent) -> bool {
    event matches TransferEvent::Pushed(answer) && answer is Ok
}

/// Why a transfer turned back after `m` pushes: the last of them failed, or the next block could
/// not be read.
pub open spec fn turned_back<B: DeviceBackend>(
    s: ManagerState,
    device: B,
    req: u64,
    log: Seq<(TransferAction, TransferEvent)>,
    m: int,
    cause: TesseraError,
) -> bool {
    let blocks = s.pool.blocks_of(req);
    ||| {
        &&& m > 0
        &&& log[m].1 matches TransferEvent::Pushed(answer)
        &&& answer matches Err(e)
        &&& cause == TesseraError::Backend(e)
    }
    ||| {
        &&& m > 0 ==> arrived(log[m].1)
        &&& m < blocks.len()
        &&& if s.pool.live(blocks[m]) {
            state::unreadable(cause, s, device)
        } else {
            cause == TesseraError::UnknownBlock(blocks[m])
        }
    }
}

/// Whether `log` is what a transfer that ends with `r` does: it reserves a slot for every block
/// and stops if that is refused; it pushes an exact copy of each block, in order; it commits when
/// all have arrived; and when a block cannot be read or does not arrive, it gives the reservation
/// back and reports why. `states` holds the transport before, between and after the calls.
pub open spec fn well_run<T, B: DeviceBackend>(
    s: ManagerState,
    device: B,
    req: u64,
    target: RankId,
    states: Seq<T>,
    log: Seq<(TransferAction, TransferEvent)>,
    r: Result<u32>,
) -> bool {
    let blocks = s.pool.blocks_of(req);
    &&& log.len() > 0
    &&& states.len() == log.len() + 1
    &&& log[0].0 == (TransferAction::Reserve { target, req_id: req, count: slots_for(blocks.len()) })
    &&& log[0].1 matches TransferEvent::Reserved(answer)
    &&& match answer {
        Err(e) => log.len() == 1 && r == Err::<u32, TesseraError>(TesseraError::Backend(e)),
        Ok(token) => match r {
            Ok(_) => {
                &&& log.len() == blocks.len() + 1
                &&& streamed(s, req, target, token, log, blocks.len() as int)
                &&& arrived(log.last().1)
            },
            Err(cause) => {
                &&& log.len() > 1
                &&& log.last() == (
                    TransferAction::Rollback { target, token },
                    TransferEvent::RolledBack,
                )
                &&& streamed(s, req, target, token, log, log.len() - 2)
                &&& turned_back(s, device, req, log, log.len() - 2, cause)
            },
        },
    }
}

/// Whether a transfer that has done `log` and is about to do `action` is on its way.
spec fn under_way<B: DeviceBackend>(
    s: ManagerState,
    device: B,
    transfer: Transfer,
    action: TransferAction,
    log: Seq<(TransferAction, TransferEvent)>,
) -> bool {
    let req = transfer.req_id;
    let target = transfer.target;
    let blocks = s.pool.blocks_of(req);
    match transfer.phase {
        TransferPhase::Reserving => {
            &&& log.len() == 0
            &&& action == (TransferAction::Reserve {
                target,
                req_id: req,
                count: slots_for(blocks.len()),
            })
        },
        TransferPhase::Streaming { token, sent } => {
            &&& sent < blocks.len()
            &&& log.len() == sent + 1
            &&& streamed(s, req, target, token, log, sent as int)
            &&& sent > 0 ==> arrived(log.last().1)
            &&& action matches TransferAction::Push { target: dst, payload }
            &&& dst == target
            &&& s.pool.live(blocks[sent as int])
            &&& s.holds(blocks[sent as int], payload)
        },
        TransferPhase::RollingBack { cause, .. } => {
            &&& action matches TransferAction::Rollback { target: dst, token }
            &&& dst == target
            &&& log.len() > 0
            &&& streamed(s, req, target, token, log, log.len() - 1)
            &&& turned_back(s, device, req, log, log.len() - 1, cause)
        },
    }
}

/// What was exported after accesses is what the block held before them.
proof fn same_payload(s: ManagerState, t: ManagerState, id: u32)
    requires
        s.same_but_touched(t),
    ensures
        t.pool.live(id) == s.pool.live(id),
        forall|p: BlockPayload| #[trigger] t.holds(id, p) == s.holds(id, p),
{
    assert(t.pool.slot(id) == s.pool.slot(id));
    assert forall|p: BlockPayload| #[trigger] t.holds(id, p) == s.holds(id, p) by {}
}

/// A log that goes on keeps what it says of its beginning.
proof fn streamed_so_far(
    s: ManagerState,
    req: u64,
    target: RankId,
    token: ReservationToken,
    log: Seq<(TransferAction, TransferEvent)>,
    entry: (TransferAction, TransferEvent),
    m: int,
)
    requires
        streamed(s, req, target, token, log, m),
    ensures
        streamed(s, req, target, token, log.push(entry), m),
{
    let longer = log.push(entry);
    assert forall|j: int| 0 <= j <= m implies #[trigger] longer[j] == log[j] by {}
}

/// A step that performs another action keeps a transfer on its way.
proof fn goes_on<B: DeviceBackend>(
    s0: ManagerState,
    s1: ManagerState,
    device: B,
    transfer: Transfer,
    action: TransferAction,
    log: Seq<(TransferAction, TransferEvent)>,
    event: TransferEvent,
    next: Transfer,
    todo: TransferAction,
)
    requires
        s0.same_but_touched(s1),
        under_way(s0, device, transfer, action, log),
        transfer.expects(event),
        transfer.blocks@ == s0.pool.blocks_of(transfer.req_id),
        0 < transfer.blocks@.len() <= usize::MAX,
        transfer.same_move(next),
        match (transfer.phase, event) {
            (TransferPhase::Reserving, TransferEvent::Reserved(Ok(token))) => sent_or_turned_back(
                transfer,
                token,
                0,
                s1,
                device,
                next,
                todo,
            ),
            (TransferPhase::Streaming { token, sent }, TransferEvent::Pushed(Ok(_))) => {
                &&& sent + 1 < transfer.blocks@.len()
                &&& sent_or_turned_back(transfer, token, sent + 1, s1, device, next, todo)
            },
            (TransferPhase::Streaming { token, sent }, TransferEvent::Pushed(Err(e))) => {
                &&& next.phase == (TransferPhase::RollingBack {
                    cause: TesseraError::Backend(e),
                    reason: AbortReason::PushFailed,
                })
                &&& todo == (TransferAction::Rollback { target: transfer.target, token })
            },
            _ => false,
        },
    ensures
        under_way(s0, device, next, todo, log.push((action, event))),
{
    let req = transfer.req_id;
    let target = transfer.target;
    let blocks = s0.pool.blocks_of(req);
    let longer = log.push((action, event));
    match transfer.phase {
        TransferPhase::Reserving => {
            same_payload(s0, s1, blocks[0]);
            assert(longer[0] == (action, event));
        },
        TransferPhase::Streaming { token, sent } => {
            streamed_so_far(s0, req, target, token, log, (action, event), sent as int);
            assert(longer[sent + 1] == (action, event));
            assert forall|j: int| 1 <= j < sent + 1 implies arrived((#[trigger] longer[j]).1) by {
                assert(longer[j] == log[j]);
                if j == sent {
                    assert(log.last() == log[j]);
                }
            }
            assert(streamed(s0, req, target, token, longer, sent + 1));
            if sent + 1 < blocks.len() {
                same_payload(s0, s1, blocks[sent + 1]);
            }
        },
        TransferPhase::RollingBack { .. } => {},
    }
}

/// What sending block number `i` comes to, as far as the log is concerned.
spec fn sent_or_turned_back<B: DeviceBackend>(
    transfer: Transfer,
    token: ReservationToken,
    i: int,
    s: ManagerState,
    device: B,
    next: Transfer,
    todo: TransferAction,
) -> bool {
    let id = transfer.blocks@[i];
    match todo {
        TransferAction::Push { target, payload } => {
            &&& target == transfer.target
            &&& s.pool.live(id)
            &&& s.holds(id, payload)
            &&& next.phase == (TransferPhase::Streaming { token, sent: i as usize })
        },
        TransferAction::Rollback { target, token: given } => {
            &&& target == transfer.target
            &&& given == token
            &&& next.phase matches TransferPhase::RollingBack { cause, .. }
            &&& if s.pool.live(id) {
                state::unreadable(cause, s, device)
            } else {
                cause == TesseraError::UnknownBlock(id)
            }
        },
        TransferAction::Reserve { .. } => false,
    }
}

/// A step that ends a transfer completes its log.
proof fn ends<T, B: DeviceBackend>(
    s: ManagerState,
    device: B,
    transfer: Transfer,
    action: TransferAction,
    log: Seq<(TransferAction, TransferEvent)>,
    event: TransferEvent,
    states: Seq<T>,
    r: Result<u32>,
)
    requires
        under_way(s, device, transfer, action, log),
        transfer.expects(event),
        transfer.blocks@ == s.pool.blocks_of(transfer.req_id),
        states.len() == log.len() + 2,
        match (transfer.phase, event) {
            (TransferPhase::Reserving, TransferEvent::Reserved(Err(e))) => r == Err::<
                u32,
                TesseraError,
            >(TesseraError::Backend(e)),
            (TransferPhase::Streaming { sent, .. }, TransferEvent::Pushed(Ok(_))) => sent + 1
                == transfer.blocks@.len() && r is Ok,
            (TransferPhase::RollingBack { cause, .. }, TransferEvent::RolledBack) => r == Err::<
                u32,
                TesseraError,
            >(cause),
            _ => false,
        },
    ensures
        well_run(
            s,
            device,
            transfer.req_id,
            transfer.target,
            states,
            log.push((action, event)),
            r,
        ),
{
    let req = transfer.req_id;
    let target = transfer.target;
    let longer = log.push((action, event));
    assert(longer.last() == (action, event));
    match transfer.phase {
        TransferPhase::Reserving => {
            assert(longer[0] == (action, event));
        },
        TransferPhase::Streaming { token, sent } => {
            streamed_so_far(s, req, target, token, log, (action, event), sent as int);
            assert(longer[sent + 1] == (action, event));
            assert forall|j: int| 1 <= j < sent + 1 implies arrived((#[trigger] longer[j]).1) by {
                assert(longer[j] == log[j]);
                if j == sent {
                    assert(log.last() == log[j]);
                }
            }
            assert(streamed(s, req, target, token, longer, sent + 1));
        },
        TransferPhase::RollingBack { .. } => {
            if let TransferAction::Rollback { token, .. } = action {
                streamed_so_far(
                    s,
                    req,
                    target,
                    token,
                    log,
                    (action, event),
                    log.len() - 1,
                );
            }
            assert(longer[log.len() - 1] == log[log.len() - 1]);
        },
    }
}

/// Whether `after` is `before` without the request `req`, which was released after its blocks
/// had been read.
pub open spec fn moved_away(before: ManagerState, after: ManagerState, req: u64) -> bool {
    exists|read: ManagerState| #[trigger]
        before.same_but_touched(read) && after == read.with_pool(read.pool.release_request(req))
}

/// Answers that are still outstanding, at most.
spec fn transfer_measure(transfer: Transfer) -> int {
    match transfer.phase {
        TransferPhase::Reserving => transfer.blocks@.len() as int + 2,
        TransferPhase::Streaming { sent, .. } => transfer.blocks@.len() - sent + 1,
        TransferPhase::RollingBack { .. } => 0,
    }
}

} // verus!
