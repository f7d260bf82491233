//! What a transfer between two managers delivers.

use vstd::prelude::*;

use crate::block::{BlockId, TokenRange};
use crate::block_manager::laws;
use crate::block_manager::peer::BlockManagerPeerAdapter;
use crate::block_manager::state::ManagerState;
use crate::block_manager::transfer::{self, TransferAction, TransferEvent};
use crate::content_hash::ContentHasher;
use crate::device::DeviceBackend;
use crate::error::{BackendError, TesseraError};
use crate::rank::RankId;
use crate::transport::mock::MockTransport;
use crate::transport::{BlockPayload, RankTransport, ReservationToken};

verus! {

/// Whether the blocks of two managers have the same shape.
pub open spec fn same_shape(s: ManagerState, d: ManagerState) -> bool {
    &&& d.config.primary_size() == s.config.primary_size()
    &&& d.config.rope_size() == s.config.rope_size()
    &&& d.config.scale_size() == s.config.scale_size()
}

/// Whether block `b` of `d` holds the bytes that block `a` of `s` holds.
pub open spec fn same_content(s: ManagerState, a: u32, d: ManagerState, b: u32) -> bool {
    &&& d.primary(b) == s.primary(a)
    &&& d.rope(b) == s.rope(a)
    &&& s.scales_base is Some ==> d.scales(b) == s.scales(a)
}

/// One push to a manager that answers for rank number `k` of a world.
proof fn pushed<B: DeviceBackend, H: ContentHasher>(
    before: MockTransport<BlockManagerPeerAdapter<B, H>>,
    after: MockTransport<BlockManagerPeerAdapter<B, H>>,
    target: RankId,
    payload: BlockPayload,
    answer: std::result::Result<BlockId, BackendError>,
    k: int,
)
    requires
        before.usable(),
        0 <= k < before@.ranks.len(),
        before@.ranks[k] == target,
        answer is Ok,
        exists|called: &mut MockTransport<BlockManagerPeerAdapter<B, H>>|
            {
                &&& *called == before
                &&& *final(called) == after
                &&& #[trigger] call_ensures(
                    MockTransport::<BlockManagerPeerAdapter<B, H>>::push_block,
                    (called, target, payload),
                    answer,
                )
            },
    ensures
        after@.ranks == before@.ranks,
        after@.handlers.len() == before@.handlers.len(),
        before@.handlers[k].same_role(after@.handlers[k]),
        after@.handlers[k].state() == before@.handlers[k].state().import(
            before@.handlers[k].accept_req_id,
            before@.handlers[k].token_range,
            payload,
        ),
{
    before.wf_implies_inv();
    assert(before@.ranks.contains(target));
}

/// A reservation on a manager that answers for rank number `k` of a world.
proof fn reserved<B: DeviceBackend, H: ContentHasher>(
    before: MockTransport<BlockManagerPeerAdapter<B, H>>,
    after: MockTransport<BlockManagerPeerAdapter<B, H>>,
    target: RankId,
    req: u64,
    count: u32,
    answer: std::result::Result<ReservationToken, BackendError>,
    k: int,
)
    requires
        before.usable(),
        0 <= k < before@.ranks.len(),
        before@.ranks[k] == target,
        answer is Ok,
        exists|called: &mut MockTransport<BlockManagerPeerAdapter<B, H>>|
            {
                &&& *called == before
                &&& *final(called) == after
                &&& #[trigger] call_ensures(
                    MockTransport::<BlockManagerPeerAdapter<B, H>>::reserve_slots,
                    (called, target, req, count),
                    answer,
                )
            },
    ensures
        after@.ranks == before@.ranks,
        after@.handlers.len() == before@.handlers.len(),
        before@.handlers[k].same_role(after@.handlers[k]),
        after@.handlers[k].state().inv(),
        after@.handlers[k].state().pool.free.len() >= count,
        after@.handlers[k].state().pool.held() >= count,
        same_shape(before@.handlers[k].state(), after@.handlers[k].state()),
{
    before.wf_implies_inv();
    assert(before@.ranks.contains(target));
    after.wf_implies_inv();
    after@.handlers[k].manager.wf_implies_inv();
    let room = before@.handlers[k].state().pool.with_capacity(count);
    before@.handlers[k].manager.wf_implies_inv();
    crate::pool::laws::with_capacity_keeps_inv(before@.handlers[k].state().pool, count);
    crate::pool::laws::reserve_keeps_inv(
        room,
        before@.handlers[k].state().rank.0,
        req,
        count,
    );
}

/// Whether a log consists, after its first entry, of pushes to `target` that arrived.
spec fn pushes(log: Seq<(TransferAction, TransferEvent)>, target: RankId) -> bool {
    forall|j: int|
        1 <= j < log.len() ==> {
            &&& (#[trigger] log[j]).0 matches TransferAction::Push { target: dst, .. }
            &&& dst == target
            &&& log[j].1 matches TransferEvent::Pushed(answer)
            &&& answer is Ok
        }
}

/// A transfer that ends well pushes a copy of every block.
proof fn good_run_pushes_all<T, D: DeviceBackend>(
    s: ManagerState,
    device: D,
    req: u64,
    target: RankId,
    states: Seq<T>,
    log: Seq<(TransferAction, TransferEvent)>,
    n: u32,
)
    requires
        transfer::well_run(s, device, req, target, states, log, Ok::<u32, TesseraError>(n)),
    ensures
        states.len() == log.len() + 1,
        log.len() == s.pool.blocks_of(req).len() + 1,
        log[0].0 == (TransferAction::Reserve {
            target,
            req_id: req,
            count: transfer::slots_for(s.pool.blocks_of(req).len()),
        }),
        log[0].1 matches TransferEvent::Reserved(answer) && answer is Ok,
        pushes(log, target),
        forall|i: int|
            0 <= i < s.pool.blocks_of(req).len() ==> {
                &&& s.pool.live(#[trigger] s.pool.blocks_of(req)[i])
                &&& s.holds(s.pool.blocks_of(req)[i], log[i + 1].0->Push_payload)
            },
{
    let blocks = s.pool.blocks_of(req);
    assert forall|j: int| 1 <= j < log.len() implies {
        &&& (#[trigger] log[j]).0 matches TransferAction::Push { target: dst, .. }
        &&& dst == target
        &&& log[j].1 matches TransferEvent::Pushed(answer)
        &&& answer is Ok
    } by {
        if j + 1 == log.len() {
            assert(log[j] == log.last());
        } else {
            assert(transfer::arrived(log[j].1));
        }
    }
    assert forall|i: int| 0 <= i < blocks.len() implies s.pool.live(#[trigger] blocks[i])
        && s.holds(blocks[i], log[i + 1].0->Push_payload) by {
        let entry = log[i + 1];
    }
}

/// Payloads that a log pushes, in order.
spec fn payloads_in(log: Seq<(TransferAction, TransferEvent)>, m: nat) -> Seq<BlockPayload> {
    Seq::new(m, |i: int| log[i + 1].0->Push_payload)
}

/// Importing one more payload.
proof fn import_one_more(
    d: ManagerState,
    req: u64,
    range: TokenRange,
    front: Seq<BlockPayload>,
    last: BlockPayload,
)
    ensures
        laws::import_all(d, req, range, front.push(last)) == laws::import_all(
            d,
            req,
            range,
            front,
        ).import(req, range, last),
{
    assert(front.push(last).drop_last() =~= front);
}

/// The manager of the target after `m` pushes.
#[verifier::spinoff_prover]
proof fn delivered_so_far<B: DeviceBackend, H: ContentHasher>(
    target: RankId,
    states: Seq<MockTransport<BlockManagerPeerAdapter<B, H>>>,
    log: Seq<(TransferAction, TransferEvent)>,
    k: int,
    m: nat,
)
    requires
        pushes(log, target),
        m < log.len(),
        0 <= k < states[1]@.ranks.len(),
        states[1]@.ranks[k] == target,
        forall|j: int| 0 <= j < log.len() ==> (#[trigger] states[j]).usable(),
        forall|j: int|
            0 <= j < log.len() && (#[trigger] log[j]).0 is Push && log[j].1 is Pushed ==> exists|
                called: &mut MockTransport<BlockManagerPeerAdapter<B, H>>,
            |
                {
                    &&& *called == states[j]
                    &&& *final(called) == states[j + 1]
                    &&& #[trigger] call_ensures(
                        MockTransport::<BlockManagerPeerAdapter<B, H>>::push_block,
                        (called, log[j].0->Push_target, log[j].0->Push_payload),
                        log[j].1->Pushed_0,
                    )
                },
    ensures
        states[m as int + 1]@.ranks == states[1]@.ranks,
        states[1]@.handlers[k].same_role(states[m as int + 1]@.handlers[k]),
        states[m as int + 1]@.handlers[k].state() == laws::import_all(
            states[1]@.handlers[k].state(),
            states[1]@.handlers[k].accept_req_id,
            states[1]@.handlers[k].token_range,
            payloads_in(log, m),
        ),
    decreases m,
{
    let start = states[1]@.handlers[k];
    if m == 0 {
        assert(payloads_in(log, m) =~= Seq::<BlockPayload>::empty());
    } else {
        let before = states[m as int];
        let after = states[m as int + 1];
        let front = payloads_in(log, (m - 1) as nat);
        delivered_so_far(target, states, log, k, (m - 1) as nat);
        let entry = log[m as int];
        let payload = entry.0->Push_payload;
        assert(before.usable());
        pushed(before, after, target, payload, entry.1->Pushed_0, k);
        assert(payloads_in(log, m) =~= front.push(payload));
        import_one_more(start.state(), start.accept_req_id, start.token_range, front, payload);
    }
}

/// Copies of blocks that are imported where as many blocks are free.
proof fn arrives(
    s: ManagerState,
    blocks: Seq<u32>,
    d: ManagerState,
    accept: u64,
    range: TokenRange,
    payloads: Seq<BlockPayload>,
)
    requires
        d.inv(),
        s.scales_base is Some ==> d.scales_base is Some,
        payloads.len() == blocks.len(),
        payloads.len() <= d.pool.free.len(),
        forall|i: int| 0 <= i < payloads.len() ==> laws::fits_block(d, #[trigger] payloads[i]),
        forall|i: int| 0 <= i < blocks.len() ==> s.holds(#[trigger] blocks[i], payloads[i]),
    ensures
        ({
            let end = laws::import_all(d, accept, range, payloads);
            let ids = laws::next_blocks(d.pool, blocks.len());
            &&& end.inv()
            &&& end.pool.blocks_of(accept) == d.pool.blocks_of(accept) + ids
            &&& d.pool.held() >= blocks.len() ==> end.pool.held() == d.pool.held() - blocks.len()
            &&& forall|i: int|
                0 <= i < blocks.len() ==> {
                    &&& end.pool.live(#[trigger] ids[i])
                    &&& end.pool.metas[ids[i]].req_id == Some(accept)
                    &&& same_content(s, blocks[i], end, ids[i])
                }
            &&& forall|id: u32| #[trigger]
                d.pool.live(id) ==> {
                    &&& end.pool.live(id)
                    &&& end.pool.metas[id] == d.pool.metas[id]
                    &&& laws::same_bytes_of(d, end, id)
                }
        }),
{
    laws::imports_arrive(d, accept, range, payloads);
    let end = laws::import_all(d, accept, range, payloads);
    let ids = laws::next_blocks(d.pool, blocks.len());
    assert forall|i: int| 0 <= i < blocks.len() implies {
        &&& end.pool.live(#[trigger] ids[i])
        &&& end.pool.metas[ids[i]].req_id == Some(accept)
        &&& same_content(s, blocks[i], end, ids[i])
    } by {
        assert(end.holds(ids[i], payloads[i]));
        assert(s.holds(blocks[i], payloads[i]));
    }
}

/// Copies of blocks fit the blocks of a manager with blocks of the same shape.
proof fn shapes_fit(s: ManagerState, blocks: Seq<u32>, d: ManagerState, payloads: Seq<BlockPayload>)
    requires
        s.inv(),
        d.inv(),
        same_shape(s, d),
        payloads.len() == blocks.len(),
        forall|i: int|
            0 <= i < blocks.len() ==> s.pool.live(#[trigger] blocks[i]) && s.holds(
                blocks[i],
                payloads[i],
            ),
    ensures
        s.scales_base is Some <==> d.scales_base is Some,
        forall|i: int| 0 <= i < payloads.len() ==> laws::fits_block(d, #[trigger] payloads[i]),
{
    assert forall|i: int| 0 <= i < payloads.len() implies laws::fits_block(
        d,
        #[trigger] payloads[i],
    ) by {
        assert(s.pool.live(blocks[i]));
        laws::export_fits_block(s, blocks[i], payloads[i]);
    }
}

/// What the calls of a transfer that ends well deliver.
#[verifier::spinoff_prover]
proof fn calls_deliver<B: DeviceBackend, H: ContentHasher>(
    s: ManagerState,
    req: u64,
    target: RankId,
    states: Seq<MockTransport<BlockManagerPeerAdapter<B, H>>>,
    log: Seq<(TransferAction, TransferEvent)>,
    k: int,
)
    requires
        s.inv(),
        states.len() == log.len() + 1,
        log.len() == s.pool.blocks_of(req).len() + 1,
        s.pool.blocks_of(req).len() <= u32::MAX,
        log[0].0 == (TransferAction::Reserve {
            target,
            req_id: req,
            count: transfer::slots_for(s.pool.blocks_of(req).len()),
        }),
        log[0].1 matches TransferEvent::Reserved(answer) && answer is Ok,
        pushes(log, target),
        forall|i: int|
            0 <= i < s.pool.blocks_of(req).len() ==> {
                &&& s.pool.live(#[trigger] s.pool.blocks_of(req)[i])
                &&& s.holds(s.pool.blocks_of(req)[i], log[i + 1].0->Push_payload)
            },
        forall|j: int| 0 <= j < log.len() ==> (#[trigger] states[j]).usable(),
        forall|j: int|
            0 <= j < log.len() && (#[trigger] log[j]).0 is Reserve && log[j].1 is Reserved ==> exists|
                called: &mut MockTransport<BlockManagerPeerAdapter<B, H>>,
            |
                {
                    &&& *called == states[j]
                    &&& *final(called) == states[j + 1]
                    &&& #[trigger] call_ensures(
                        MockTransport::<BlockManagerPeerAdapter<B, H>>::reserve_slots,
                        (
                            called,
                            log[j].0->Reserve_target,
                            log[j].0->Reserve_req_id,
                            log[j].0->Reserve_count,
                        ),
                        log[j].1->Reserved_0,
                    )
                },
        forall|j: int|
            0 <= j < log.len() && (#[trigger] log[j]).0 is Push && log[j].1 is Pushed ==> exists|
                called: &mut MockTransport<BlockManagerPeerAdapter<B, H>>,
            |
                {
                    &&& *called == states[j]
                    &&& *final(called) == states[j + 1]
                    &&& #[trigger] call_ensures(
                        MockTransport::<BlockManagerPeerAdapter<B, H>>::push_block,
                        (called, log[j].0->Push_target, log[j].0->Push_payload),
                        log[j].1->Pushed_0,
                    )
                },
        0 <= k < states[0]@.ranks.len(),
        states[0]@.ranks[k] == target,
        same_shape(s, states[0]@.handlers[k].state()),
    ensures
        ({
            let blocks = s.pool.blocks_of(req);
            let accept = states[0]@.handlers[k].accept_req_id;
            let made_room = states[1]@.handlers[k].state();
            let end = states.last()@.handlers[k].state();
            let ids = laws::next_blocks(made_room.pool, blocks.len());
            &&& end.inv()
            &&& end.pool.blocks_of(accept) == made_room.pool.blocks_of(accept) + ids
            &&& end.pool.held() == made_room.pool.held() - blocks.len()
            &&& forall|i: int|
                0 <= i < blocks.len() ==> {
                    &&& end.pool.live(#[trigger] ids[i])
                    &&& end.pool.metas[ids[i]].req_id == Some(accept)
                    &&& same_content(s, blocks[i], end, ids[i])
                }
            &&& forall|id: u32| #[trigger]
                made_room.pool.live(id) ==> {
                    &&& end.pool.live(id)
                    &&& end.pool.metas[id] == made_room.pool.metas[id]
                    &&& laws::same_bytes_of(made_room, end, id)
                }
        }),
{
    let blocks = s.pool.blocks_of(req);
    let m = blocks.len();
    let room = states[1]@.handlers[k];
    assert(states[0].usable());
    assert(log[0].0 is Reserve && log[0].1 is Reserved);
    reserved(states[0], states[1], target, req, transfer::slots_for(m), log[0].1->Reserved_0, k);
    delivered_so_far(target, states, log, k, m);
    let payloads = payloads_in(log, m);
    shapes_fit(s, blocks, room.state(), payloads);
    arrives(s, blocks, room.state(), room.accept_req_id, room.token_range, payloads);
}

/// A transfer that commits delivers every block. Let a manager answer for the target, with blocks
/// of the same shape. Then a transfer to it that ends well, as
/// [`crate::block_manager::TesseraBlockManager::transfer_request_to_rank`] reports it, leaves there
/// one new block for each block of the request, in order, with the same bytes; the slots that the
/// reservation held are used up; and no block that the reservation left in place is evicted or
/// changed.
#[verifier::spinoff_prover]
pub proof fn transfer_delivers<B: DeviceBackend, H: ContentHasher, D: DeviceBackend>(
    s: ManagerState,
    device: D,
    req: u64,
    target: RankId,
    states: Seq<MockTransport<BlockManagerPeerAdapter<B, H>>>,
    log: Seq<(TransferAction, TransferEvent)>,
    n: u32,
    k: int,
)
    requires
        s.inv(),
        s.pool.blocks_of(req).len() <= u32::MAX,
        transfer::well_run(s, device, req, target, states, log, Ok::<u32, TesseraError>(n)),
        forall|j: int| 0 <= j < log.len() ==> (#[trigger] states[j]).usable(),
        forall|j: int|
            0 <= j < log.len() && (#[trigger] log[j]).0 is Reserve && log[j].1 is Reserved ==> exists|
                called: &mut MockTransport<BlockManagerPeerAdapter<B, H>>,
            |
                {
                    &&& *called == states[j]
                    &&& *final(called) == states[j + 1]
                    &&& #[trigger] call_ensures(
                        MockTransport::<BlockManagerPeerAdapter<B, H>>::reserve_slots,
                        (
                            called,
                            log[j].0->Reserve_target,
                            log[j].0->Reserve_req_id,
                            log[j].0->Reserve_count,
                        ),
                        log[j].1->Reserved_0,
                    )
                },
        forall|j: int|
            0 <= j < log.len() && (#[trigger] log[j]).0 is Push && log[j].1 is Pushed ==> exists|
                called: &mut MockTransport<BlockManagerPeerAdapter<B, H>>,
            |
                {
                    &&& *called == states[j]
                    &&& *final(called) == states[j + 1]
                    &&& #[trigger] call_ensures(
                        MockTransport::<BlockManagerPeerAdapter<B, H>>::push_block,
                        (called, log[j].0->Push_target, log[j].0->Push_payload),
                        log[j].1->Pushed_0,
                    )
                },
        0 <= k < states[0]@.ranks.len(),
        states[0]@.ranks[k] == target,
        same_shape(s, states[0]@.handlers[k].state()),
    ensures
        ({
            let blocks = s.pool.blocks_of(req);
            let accept = states[0]@.handlers[k].accept_req_id;
            let made_room = states[1]@.handlers[k].state();
            let end = states.last()@.handlers[k].state();
            let ids = laws::next_blocks(made_room.pool, blocks.len());
            &&& end.inv()
            &&& end.pool.blocks_of(accept) == made_room.pool.blocks_of(accept) + ids
            &&& end.pool.held() == made_room.pool.held() - blocks.len()
            &&& forall|i: int|
                0 <= i < blocks.len() ==> {
                    &&& end.pool.live(#[trigger] ids[i])
                    &&& end.pool.metas[ids[i]].req_id == Some(accept)
                    &&& same_content(s, blocks[i], end, ids[i])
                }
            &&& forall|id: u32| #[trigger]
                made_room.pool.live(id) ==> {
                    &&& end.pool.live(id)
                    &&& end.pool.metas[id] == made_room.pool.metas[id]
                    &&& laws::same_bytes_of(made_room, end, id)
                }
        }),
{
    good_run_pushes_all(s, device, req, target, states, log, n);
    calls_deliver(s, req, target, states, log, k);
}

} // verus!
