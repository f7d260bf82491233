//! What the operations of a pool do, block by block.

use vstd::prelude::*;
use vstd::string::*;

use crate::block::{BlockMeta, TokenRange, SHARED_SENTINEL};
use crate::config::CkvDtype;
use crate::lists;
use crate::pool::laws;
use crate::pool::state::{self, EvictionTier, PoolState};

verus! {

/// In a new pool nothing is allocated, owned, indexed or reserved, and every number below the size
/// of the pool can be handed out.
pub proof fn new_pool_is_all_free(total: u32, id: u32)
    ensures
        ({
            let s = PoolState::empty(total);
            &&& !s.live(id)
            &&& s.used() == 0
            &&& s.spare() == total
            &&& s.held() == 0
            &&& s.free.contains(id) <==> id < total
            &&& total > 0 ==> s.has_room() && s.next_block() == total - 1
            &&& forall|req: u64| (#[trigger] s.blocks_of(req)).len() == 0
            &&& forall|hash: u64| !(#[trigger] s.index.dom().contains(hash))
            &&& forall|token: u64| !(#[trigger] s.reservations.dom().contains(token))
            &&& laws::epochs_ordered(s)
            &&& index_is_current(s)
        }),
{
    let s = PoolState::empty(total);
    laws::empty_keeps_inv(total);
    if id < total {
        assert(s.free[id as int] == id);
    }
    if total > 0 {
        assert(s.free.last() == total - 1);
    }
}

/// Every slot is either used, held by a reservation or spare.
pub proof fn slots_add_up(s: PoolState)
    requires
        s.inv(),
    ensures
        s.metas.dom().len() + s.held() + s.spare() == s.total,
        s.spare() >= 0,
{
    laws::used_counts_live_blocks(s);
}

/// Whether two records agree on which block they describe, whose it is and what it holds: on all
/// but the references and the time of the last access.
pub open spec fn same_identity(a: BlockMeta, b: BlockMeta) -> bool {
    &&& a.block_id == b.block_id
    &&& a.req_id == b.req_id
    &&& a.content_hash == b.content_hash
    &&& a.indexed == b.indexed
    &&& a.token_range == b.token_range
    &&& a.ckv_dtype == b.ckv_dtype
}

// ---- accesses

/// After an access a block is the one that was accessed last, and nothing else about it or any
/// other block has changed.
pub proof fn touched_block_is_newest(s: PoolState, id: u32, other: u32)
    requires
        s.inv(),
        laws::epochs_ordered(s),
        s.live(id),
        s.live(other),
    ensures
        ({
            let t = s.touch(id);
            &&& t.live(other)
            &&& other != id ==> t.metas[other] == s.metas[other] && t.metas[other].last_touched
                < t.metas[id].last_touched
            &&& t.metas[id].last_touched > s.metas[id].last_touched
            &&& t.metas[id].ref_count == s.metas[id].ref_count
            &&& same_identity(t.metas[id], s.metas[id])
            &&& s.epoch < u64::MAX ==> t.epoch == s.epoch + 1
            &&& t.free == s.free
            &&& t.index == s.index
            &&& t.owned == s.owned
            &&& t.reservations == s.reservations
        }),
{
}

/// States that differ in accesses alone agree on everything but the times of the last accesses.
pub proof fn accesses_change_nothing_else(s: PoolState, t: PoolState, id: u32)
    requires
        s.same_but_touched(t),
    ensures
        t.live(id) == s.live(id),
        s.live(id) ==> {
            &&& t.metas[id].ref_count == s.metas[id].ref_count
            &&& same_identity(t.metas[id], s.metas[id])
        },
        t.total == s.total,
        t.free == s.free,
        t.owned == s.owned,
        t.index == s.index,
        t.reservations == s.reservations,
        t.order == s.order,
        t.next_reservation == s.next_reservation,
{
}

// ---- eviction

/// The victim of an eviction has one holder. It is not in the segment index if any block that
/// might go instead is not, and among blocks that agree in this it was not accessed for the longest
/// time. Of two that were accessed at the same time the one in the lower slot goes first.
pub proof fn victim_is_least_recently_used(s: PoolState, victim: u32, other: u32)
    requires
        s.inv(),
        s.victim() == Some(victim),
        s.live(other),
        s.metas[other].ref_count == 1,
    ensures
        s.live(victim),
        s.metas[victim].ref_count == 1,
        !s.metas[other].indexed ==> !s.metas[victim].indexed,
        s.metas[other].indexed == s.metas[victim].indexed ==> s.metas[victim].last_touched
            <= s.metas[other].last_touched,
        s.metas[other].indexed == s.metas[victim].indexed && s.metas[victim].last_touched
            == s.metas[other].last_touched ==> s.slot(victim) <= s.slot(other),
{
    assert(s.is_victim(victim));
    assert(s.evictable(other));
}

/// A block is evicted if and only if some block has a single holder.
pub proof fn eviction_needs_a_single_holder(s: PoolState)
    requires
        s.inv(),
    ensures
        s.victim() is Some <==> exists|id: u32| #[trigger]
            s.live(id) && s.metas[id].ref_count == 1,
{
    laws::some_block_is_evicted(s);
    if s.victim() is Some {
        let id = choose|id: u32| s.evictable(id);
        assert(s.live(id) && s.metas[id].ref_count == 1);
    }
    if exists|id: u32| #[trigger] s.live(id) && s.metas[id].ref_count == 1 {
        let id = choose|id: u32| #[trigger] s.live(id) && s.metas[id].ref_count == 1;
        assert(s.evictable(id));
    }
}

/// An eviction takes the victim, and only the victim, out of the pool: its slot is free, it is on
/// no list and no other block, list entry or reservation changes.
pub proof fn eviction_takes_the_victim_only(s: PoolState, victim: u32, other: u32, req: u64)
    requires
        s.inv(),
        s.victim() == Some(victim),
        req != SHARED_SENTINEL,
    ensures
        ({
            let t = s.evict();
            &&& !t.live(victim)
            &&& other != victim ==> t.live(other) == s.live(other)
            &&& t.live(other) ==> t.metas[other] == s.metas[other]
            &&& t.used() == s.used() - 1
            &&& t.spare() == s.spare() + 1
            &&& t.slot(t.free.last()) == s.slot(victim)
            &&& t.blocks_of(req).contains(other) <==> s.blocks_of(req).contains(other) && other
                != victim
            &&& t.reservations == s.reservations
            &&& t.epoch == s.epoch
        }),
{
    let t = s.evict();
    assert(s.is_victim(victim));
    state::renewed_keeps_slot(victim, s.total);
    leaves_the_lists(s, victim, state::renewed(victim, s.total), other, req);
}

/// A block whose slot is freed is on no list afterwards, and every other block stays on its list.
proof fn leaves_the_lists(s: PoolState, id: u32, next: u32, other: u32, req: u64)
    requires
        s.inv(),
        s.live(id),
        req != SHARED_SENTINEL,
    ensures
        s.reclaim_as(id, next).blocks_of(req).contains(other) <==> s.blocks_of(req).contains(other)
            && other != id,
{
    let t = s.reclaim_as(id, next);
    if s.owned.dom().contains(req) {
        assert(s.list_ok(req));
        lists::without_membership(s.owned[req], id);
        if s.metas[id].req_id != Some(req) && s.owned[req].contains(id) {
            let i = choose|i: int| 0 <= i < s.owned[req].len() && s.owned[req][i] == id;
            assert(s.metas[s.owned[req][i]].req_id == Some(req));
        }
    }
}

/// Whatever its reference count, a block whose slot is freed is on no list afterwards.
pub proof fn freed_slot_leaves_the_lists(s: PoolState, id: u32, other: u32, req: u64)
    requires
        s.inv(),
        s.live(id),
        req != SHARED_SENTINEL,
    ensures
        s.reclaim(id).blocks_of(req).contains(other) <==> s.blocks_of(req).contains(other) && other
            != id,
{
    leaves_the_lists(s, id, id, other, req);
}

// ---- allocation

/// An allocation evicts nothing while a spare slot is free, and otherwise the victim alone. Every
/// other block keeps its metadata.
pub proof fn allocation_evicts_at_most_the_victim(
    s: PoolState,
    req: u64,
    range: TokenRange,
    dtype: CkvDtype,
    other: u32,
)
    requires
        s.inv(),
        s.has_room(),
        s.live(other),
    ensures
        ({
            let t = s.allocate(req, range, dtype);
            &&& s.spare() > 0 || s.victim() != Some(other) ==> {
                &&& t.live(other)
                &&& t.metas[other] == s.metas[other]
                &&& other != s.next_block()
            }
            &&& t.used() == (if s.spare() > 0 {
                s.used() + 1
            } else {
                s.used()
            })
        }),
{
    laws::allocate_keeps_inv(s, req, range, dtype);
    laws::evict_keeps_inv(s);
    let m = s.with_room();
    if let Some(v) = s.victim() {
        assert(s.is_victim(v));
    }
    assert(m.free[m.free.len() - 1] == s.next_block());
    if s.spare() > 0 || s.victim() != Some(other) {
        assert(m.live(other));
        assert(m.slot(m.free[m.free.len() - 1]) != m.slot(other));
    }
}

/// A block that was just allocated is live, belongs to its request, is the last on the request's
/// list, has one holder, is neither sealed nor indexed, and was accessed after every other block.
pub proof fn allocated_block_is_fresh(
    s: PoolState,
    req: u64,
    range: TokenRange,
    dtype: CkvDtype,
    other: u32,
)
    requires
        s.inv(),
        s.has_room(),
        laws::epochs_ordered(s),
    ensures
        ({
            let t = s.allocate(req, range, dtype);
            let new = s.next_block();
            &&& t.live(new)
            &&& t.metas[new].block_id.0 == new
            &&& t.metas[new].req_id == Some(req)
            &&& t.metas[new].ref_count == 1
            &&& t.metas[new].content_hash == 0
            &&& !t.metas[new].indexed
            &&& t.metas[new].token_range == range
            &&& t.metas[new].ckv_dtype == dtype
            &&& t.blocks_of(req).len() > 0
            &&& t.blocks_of(req).last() == new
            &&& t.live(other) && other != new ==> t.metas[other].last_touched
                < t.metas[new].last_touched
            &&& s.epoch < u64::MAX ==> laws::epochs_ordered(t)
        }),
{
    if s.epoch < u64::MAX {
        laws::epochs_stay_ordered(s, s.next_block(), req, range, dtype, 0);
    }
    let t = s.allocate(req, range, dtype);
    if let Some(v) = s.victim() {
        assert(s.is_victim(v));
    }
    if t.live(other) && other != s.next_block() {
        assert(s.with_room().live(other));
        assert(s.live(other));
    }
}

/// Allocation counts as an access: the new block is evicted after every other block of its tier.
pub proof fn allocated_block_is_evicted_last(
    s: PoolState,
    req: u64,
    range: TokenRange,
    dtype: CkvDtype,
    other: u32,
)
    requires
        s.inv(),
        s.has_room(),
        laws::epochs_ordered(s),
        s.allocate(req, range, dtype).live(other),
        other != s.next_block(),
        s.allocate(req, range, dtype).metas[other].ref_count == 1,
        !s.allocate(req, range, dtype).metas[other].indexed,
    ensures
        s.allocate(req, range, dtype).evicts_before(other, s.next_block()),
        s.allocate(req, range, dtype).victim() is Some,
        s.allocate(req, range, dtype).victim() != Some(s.next_block()),
{
    let t = s.allocate(req, range, dtype);
    allocated_block_is_fresh(s, req, range, dtype, other);
    laws::allocate_keeps_inv(s, req, range, dtype);
    eviction_needs_a_single_holder(t);
    if t.victim() == Some(s.next_block()) {
        victim_is_least_recently_used(t, s.next_block(), other);
    }
}

/// The lists of the requests change by the new block and the evicted one alone.
pub proof fn allocation_extends_one_list(
    s: PoolState,
    req: u64,
    range: TokenRange,
    dtype: CkvDtype,
    other_req: u64,
)
    requires
        s.inv(),
        s.has_room(),
        other_req != req,
        other_req != SHARED_SENTINEL,
        req != SHARED_SENTINEL,
    ensures
        ({
            let t = s.allocate(req, range, dtype);
            let gone = if s.spare() > 0 {
                None
            } else {
                s.victim()
            };
            &&& forall|id: u32| #[trigger]
                t.blocks_of(req).contains(id) <==> id == s.next_block() || (s.blocks_of(req).contains(
                    id,
                ) && gone != Some(id))
            &&& forall|id: u32| #[trigger]
                t.blocks_of(other_req).contains(id) <==> s.blocks_of(other_req).contains(id) && gone
                    != Some(id)
        }),
{
    let t = s.allocate(req, range, dtype);
    let m = s.with_room();
    let list = m.blocks_of(req);
    let new = s.next_block();
    laws::evict_keeps_inv(s);
    assert forall|id: u32| #[trigger]
        t.blocks_of(req).contains(id) <==> id == new || list.contains(id) by {
        assert(t.blocks_of(req) == list.push(new));
        assert(list.push(new)[list.len() as int] == new);
        if list.contains(id) {
            let i = choose|i: int| 0 <= i < list.len() && list[i] == id;
            assert(list.push(new)[i] == id);
        }
        if list.push(new).contains(id) && id != new {
            let i = choose|i: int| 0 <= i < list.push(new).len() && list.push(new)[i] == id;
            assert(list[i] == id);
        }
    }
    assert(t.blocks_of(other_req) == m.blocks_of(other_req));
    if s.spare() <= 0 {
        assert(s.victim() is Some);
        if let Some(v) = s.victim() {
            assert(m == s.evict());
            assert forall|id: u32| #[trigger]
                m.blocks_of(req).contains(id) <==> s.blocks_of(req).contains(id) && id != v by {
                eviction_takes_the_victim_only(s, v, id, req);
            }
            assert forall|id: u32| #[trigger]
                m.blocks_of(other_req).contains(id) <==> s.blocks_of(other_req).contains(id) && id
                    != v by {
                eviction_takes_the_victim_only(s, v, id, other_req);
            }
        }
    }
}

// ---- references

/// Adding a reference changes the count of that block by one and nothing else.
pub proof fn retaining_adds_one_reference(s: PoolState, id: u32, other: u32)
    requires
        s.inv(),
        s.live(id),
        s.metas[id].ref_count < u32::MAX,
    ensures
        ({
            let t = s.retain(id);
            &&& t.metas[id].ref_count == s.metas[id].ref_count + 1
            &&& t.live(other) == s.live(other)
            &&& s.live(other) && other != id ==> t.metas[other] == s.metas[other]
            &&& t.metas[id].last_touched == s.metas[id].last_touched
            &&& same_identity(t.metas[id], s.metas[id])
            &&& t.free == s.free
            &&& t.owned == s.owned
            &&& t.index == s.index
            &&& t.reservations == s.reservations
            &&& t.epoch == s.epoch
        }),
{
}

/// Releasing a reference that is not the last one lowers the count by one and nothing else.
pub proof fn releasing_one_of_several(s: PoolState, id: u32, other: u32)
    requires
        s.inv(),
        s.live(id),
        s.metas[id].ref_count > 1,
    ensures
        ({
            let t = s.release(id);
            &&& t.live(id)
            &&& t.metas[id].ref_count == s.metas[id].ref_count - 1
            &&& t.metas[id].last_touched == s.metas[id].last_touched
            &&& same_identity(t.metas[id], s.metas[id])
            &&& t.live(other) == s.live(other)
            &&& s.live(other) && other != id ==> t.metas[other] == s.metas[other]
            &&& t.free == s.free
            &&& t.owned == s.owned
            &&& t.index == s.index
            &&& t.reservations == s.reservations
        }),
{
}

/// Releasing the last reference frees the block: it is absent, on no list, and handed out next; no
/// other block changes.
pub proof fn releasing_the_last_reference(s: PoolState, id: u32, other: u32, req: u64)
    requires
        s.inv(),
        s.live(id),
        s.metas[id].ref_count == 1,
        req != SHARED_SENTINEL,
    ensures
        ({
            let t = s.release(id);
            &&& !t.live(id)
            &&& other != id ==> t.live(other) == s.live(other)
            &&& t.live(other) ==> t.metas[other] == s.metas[other]
            &&& t.used() == s.used() - 1
            &&& t.spare() == s.spare() + 1
            &&& t.has_room()
            &&& t.next_block() == id
            &&& t.blocks_of(req).contains(other) <==> s.blocks_of(req).contains(other) && other
                != id
            &&& t.reservations == s.reservations
            &&& t.epoch == s.epoch
        }),
{
    laws::reclaim_keeps_inv(s, id, id);
    leaves_the_lists(s, id, id, other, req);
}

// ---- the content index

/// Whether every entry of the content index names a live block that was sealed with the hash. Hash
/// 0 stands for a block that is not sealed, and is left out.
pub open spec fn index_is_current(s: PoolState) -> bool {
    forall|hash: u64| #[trigger]
        s.index.dom().contains(hash) ==> {
            &&& hash != 0
            &&& s.live(s.index[hash])
            &&& s.metas[s.index[hash]].content_hash == hash
        }
}

/// Whether no entry of the content index names block `id`.
pub open spec fn unindexed(s: PoolState, id: u32) -> bool {
    forall|hash: u64| #[trigger] s.index.dom().contains(hash) ==> s.index[hash] != id
}

proof fn reclaiming_keeps_index(s: PoolState, id: u32, next: u32)
    requires
        index_is_current(s),
        s.live(id),
    ensures
        index_is_current(s.reclaim_as(id, next)),
        unindexed(s.reclaim_as(id, next), id),
        forall|hash: u64| #[trigger]
            s.index.dom().contains(hash) && s.index[hash] != id ==> {
                &&& s.reclaim_as(id, next).index.dom().contains(hash)
                &&& s.reclaim_as(id, next).index[hash] == s.index[hash]
            },
{
    let t = s.reclaim_as(id, next);
    assert forall|hash: u64| #[trigger] t.index.dom().contains(hash) implies {
        &&& hash != 0
        &&& t.index[hash] != id
        &&& t.live(t.index[hash])
        &&& t.metas[t.index[hash]].content_hash == hash
    } by {
        assert(s.index.dom().contains(hash));
        if s.index[hash] == id {
            assert(s.metas[id].content_hash == hash);
        }
    }
}

/// A block that leaves the pool leaves the content index: once its last reference is released no
/// hash names it, and the entries of other blocks stay.
pub proof fn freed_block_leaves_the_index(s: PoolState, id: u32)
    requires
        s.inv(),
        index_is_current(s),
        s.live(id),
    ensures
        index_is_current(s.release(id)),
        s.metas[id].ref_count == 1 ==> unindexed(s.release(id), id),
        forall|hash: u64| #[trigger]
            s.index.dom().contains(hash) && s.index[hash] != id ==> {
                &&& s.release(id).index.dom().contains(hash)
                &&& s.release(id).index[hash] == s.index[hash]
            },
{
    if s.metas[id].ref_count == 1 {
        reclaiming_keeps_index(s, id, id);
    } else {
        let t = s.release(id);
        assert forall|hash: u64| #[trigger] t.index.dom().contains(hash) implies {
            &&& hash != 0
            &&& t.live(t.index[hash])
            &&& t.metas[t.index[hash]].content_hash == hash
        } by {
            assert(s.index.dom().contains(hash));
        }
    }
}

/// An evicted block leaves the content index too.
pub proof fn evicted_block_leaves_the_index(s: PoolState)
    requires
        s.inv(),
        index_is_current(s),
    ensures
        index_is_current(s.evict()),
        s.victim() matches Some(victim) ==> unindexed(s.evict(), victim),
{
    if let Some(v) = s.victim() {
        assert(s.is_victim(v));
        reclaiming_keeps_index(s, v, state::renewed(v, s.total));
    }
}

/// Releasing a request keeps the content index in step with the blocks: no hash names a block that
/// went with the request.
pub proof fn released_request_leaves_the_index(s: PoolState, req: u64)
    requires
        s.inv(),
        index_is_current(s),
    ensures
        index_is_current(s.release_request(req)),
        forall|id: u32|
            !(#[trigger] s.release_request(req).live(id)) ==> unindexed(s.release_request(req), id),
{
    let f = PoolState { owned: s.owned.remove(req), ..s };
    laws::forget_keeps_inv(s, req);
    assert(index_is_current(f)) by {
        assert forall|hash: u64| #[trigger] f.index.dom().contains(hash) implies {
            &&& hash != 0
            &&& f.live(f.index[hash])
            &&& f.metas[f.index[hash]].content_hash == hash
        } by {
            assert(s.index.dom().contains(hash));
        }
    }
    released_blocks_leave_the_index(f, s.blocks_of(req));
}

proof fn released_blocks_leave_the_index(s: PoolState, ids: Seq<u32>)
    requires
        s.inv(),
        index_is_current(s),
    ensures
        index_is_current(s.release_all(ids)),
    decreases ids.len(),
{
    if ids.len() > 0 {
        let t = s.release_all(ids.drop_last());
        released_blocks_leave_the_index(s, ids.drop_last());
        laws::release_all_keeps_inv(s, ids.drop_last());
        if t.live(ids.last()) {
            freed_block_leaves_the_index(t, ids.last());
        }
    }
}

/// The operations on one block that do not seal it leave the content index in step: an access, an
/// allocation and another reference.
pub proof fn index_stays_current(
    s: PoolState,
    id: u32,
    req: u64,
    range: TokenRange,
    dtype: CkvDtype,
)
    requires
        s.inv(),
        index_is_current(s),
    ensures
        index_is_current(s.touch(id)),
        s.live(id) ==> index_is_current(s.retain(id)),
        s.has_room() ==> index_is_current(s.allocate(req, range, dtype)),
        s.has_room() ==> unindexed(s.allocate(req, range, dtype), s.next_block()),
{
    current_in(s, s.touch(id));
    if s.live(id) {
        current_in(s, s.retain(id));
    }
    if s.has_room() {
        let m = s.with_room();
        let t = s.allocate(req, range, dtype);
        evicted_block_leaves_the_index(s);
        laws::allocate_keeps_inv(s, req, range, dtype);
        assert(m.free[m.free.len() - 1] == s.next_block());
        assert(!m.live(s.next_block()));
        assert forall|hash: u64| #[trigger] t.index.dom().contains(hash) implies {
            &&& hash != 0
            &&& t.index[hash] != s.next_block()
            &&& t.live(t.index[hash])
            &&& t.metas[t.index[hash]].content_hash == hash
        } by {
            assert(m.index.dom().contains(hash));
            assert(m.live(m.index[hash]));
        }
    }
}

/// The index stays current where it is the same and the blocks keep their hashes.
pub proof fn current_in(s: PoolState, t: PoolState)
    requires
        index_is_current(s),
        t.index == s.index,
        forall|id: u32| #[trigger]
            s.live(id) ==> t.live(id) && t.metas[id].content_hash == s.metas[id].content_hash,
    ensures
        index_is_current(t),
{
    assert forall|hash: u64| #[trigger] t.index.dom().contains(hash) implies {
        &&& hash != 0
        &&& t.live(t.index[hash])
        &&& t.metas[t.index[hash]].content_hash == hash
    } by {
        assert(s.index.dom().contains(hash));
    }
}

/// Registering a block under a hash that is free, and that is the only one it is registered under,
/// keeps the index current, and the hash then names the block.
pub proof fn published_block_is_found(s: PoolState, id: u32, hash: u64)
    requires
        s.inv(),
        index_is_current(s),
        s.live(id),
        hash != 0,
        unindexed(s, id),
        !s.index.dom().contains(hash),
    ensures
        index_is_current(s.publish(id, hash)),
        s.publish(id, hash).index.dom().contains(hash),
        s.publish(id, hash).index[hash] == id,
        s.publish(id, hash).metas[id].content_hash == hash,
        forall|other: u64| #[trigger]
            s.index.dom().contains(other) ==> s.publish(id, hash).index.dom().contains(other)
                && s.publish(id, hash).index[other] == s.index[other],
{
    let t = s.publish(id, hash);
    assert forall|h: u64| #[trigger] t.index.dom().contains(h) implies {
        &&& h != 0
        &&& t.live(t.index[h])
        &&& t.metas[t.index[h]].content_hash == h
    } by {
        if h != hash {
            assert(s.index.dom().contains(h));
        }
    }
}

// ---- reservations

/// A reservation evicts no more than it needs, nothing if the spare slots suffice, and is refused
/// only if every block that is left is shared.
pub proof fn reservations_evict_what_they_need(s: PoolState, count: u32)
    requires
        s.inv(),
    ensures
        ({
            let t = s.with_capacity(count);
            &&& s.spare() >= count ==> t == s
            &&& s.spare() < count ==> s.spare() <= t.spare() <= count
            &&& t.spare() < count ==> forall|id: u32| #[trigger]
                t.live(id) ==> t.metas[id].ref_count > 1
            &&& forall|id: u32| #[trigger] t.live(id) ==> s.live(id) && t.metas[id] == s.metas[id]
            &&& forall|id: u32| #[trigger]
                s.live(id) && s.metas[id].ref_count > 1 ==> t.live(id)
        }),
{
    if s.spare() < count {
        evicting_until(s, count, (count - s.spare()) as nat);
        laws::with_capacity_keeps_inv(s, count);
        let t = s.with_capacity(count);
        if t.spare() < count {
            eviction_needs_a_single_holder(t);
            assert forall|id: u32| #[trigger] t.live(id) implies t.metas[id].ref_count > 1 by {
                if t.metas[id].ref_count <= 1 {
                    assert(t.live(id) && t.metas[id].ref_count == 1);
                }
            }
        }
    }
}

proof fn evicting_until(s: PoolState, count: u32, n: nat)
    requires
        s.inv(),
        s.spare() + n <= count,
    ensures
        ({
            let t = s.evict_until(count, n);
            &&& s.spare() <= t.spare() <= s.spare() + n
            &&& t.spare() < s.spare() + n ==> t.victim() is None
            &&& forall|id: u32| #[trigger] t.live(id) ==> s.live(id) && t.metas[id] == s.metas[id]
            &&& forall|id: u32| #[trigger]
                s.live(id) && s.metas[id].ref_count > 1 ==> t.live(id)
        }),
    decreases n,
{
    if n > 0 {
        let m = s.evict();
        laws::evict_keeps_inv(s);
        if let Some(v) = s.victim() {
            assert(s.is_victim(v));
            if m.spare() < count {
                evicting_until(m, count, (n - 1) as nat);
            }
            assert forall|id: u32| #[trigger] s.evict_until(count, n).live(id) implies s.live(id)
                && s.evict_until(count, n).metas[id] == s.metas[id] by {
                assert(m.live(id));
            }
            assert forall|id: u32| #[trigger]
                s.live(id) && s.metas[id].ref_count > 1 implies s.evict_until(count, n).live(id) by {
                assert(m.live(id));
            }
        } else {
            nothing_to_evict(s, count, n);
        }
    }
}

proof fn nothing_to_evict(s: PoolState, count: u32, n: nat)
    requires
        s.victim() is None,
    ensures
        s.evict_until(count, n) == s,
    decreases n,
{
    if n > 0 {
        nothing_to_evict(s, count, (n - 1) as nat);
    }
}

/// Using up a slot of one reservation, or giving one up, leaves the others as they were.
pub proof fn reservations_are_independent(s: PoolState, token: u64, other: u64)
    requires
        s.inv(),
        other != token,
    ensures
        s.consume(token).reservations.dom().contains(other) == s.reservations.dom().contains(other),
        s.reservations.dom().contains(other) ==> s.consume(token).reservations[other]
            == s.reservations[other],
        s.unreserve(token).reservations.dom().contains(other) == s.reservations.dom().contains(
            other,
        ),
        s.reservations.dom().contains(other) ==> s.unreserve(token).reservations[other]
            == s.reservations[other],
        !s.unreserve(token).reservations.dom().contains(token),
        s.reservations.dom().contains(token) && s.reservations[token].1 > 1 ==> {
            &&& s.consume(token).reservations.dom().contains(token)
            &&& s.consume(token).reservations[token] == (
                s.reservations[token].0,
                (s.reservations[token].1 - 1) as u32,
            )
        },
        s.reservations.dom().contains(token) && s.reservations[token].1 <= 1
            ==> !s.consume(token).reservations.dom().contains(token),
        s.consume(token).metas == s.metas,
        s.consume(token).free == s.free,
        s.unreserve(token).metas == s.metas,
        s.unreserve(token).free == s.free,
{
}

/// Reservations are kept by age: a new one is the youngest, and the order of the others stays.
pub proof fn new_reservation_is_the_youngest(s: PoolState, rank: u32, req: u64, count: u32)
    requires
        s.inv(),
        !s.reservations.dom().contains(state::token_of(rank, s.next_reservation)),
    ensures
        s.reserve(rank, req, count).order == s.order.push(
            state::token_of(rank, s.next_reservation),
        ),
        s.reserve(rank, req, count).metas == s.metas,
        s.reserve(rank, req, count).free == s.free,
        s.next_reservation < u64::MAX ==> s.reserve(rank, req, count).next_reservation
            == s.next_reservation + 1,
{
    let token = state::token_of(rank, s.next_reservation);
    assert(!s.order.contains(token));
    lists::without_absent(s.order, token);
}

/// A block that arrives uses the oldest reservation of its request that still holds a slot; only
/// if its request has none, it uses the oldest one of all.
pub proof fn arriving_block_uses_the_oldest_reservation(s: PoolState, req: u64, i: int, j: int)
    requires
        s.inv(),
        0 <= j < i < s.order.len(),
        s.claim(req) == Some(s.order[i]),
    ensures
        s.reservations[s.order[i]].1 > 0,
        s.reservations[s.order[j]].1 == 0 || (s.reservations[s.order[i]].0 == req
            && s.reservations[s.order[j]].0 != req),
{
    laws::first_holding_holds(s.reservations, s.order, Some(req));
    laws::first_holding_holds(s.reservations, s.order, None);
    if state::first_holding(s.reservations, s.order, Some(req)) is Some {
        earlier_ones_hold_nothing(s.reservations, s.order, Some(req), i, j);
    } else {
        earlier_ones_hold_nothing(s.reservations, s.order, None, i, j);
    }
}

proof fn earlier_ones_hold_nothing(
    entries: Map<u64, (u64, u32)>,
    tokens: Seq<u64>,
    req: Option<u64>,
    i: int,
    j: int,
)
    requires
        0 <= j < i < tokens.len(),
        tokens.no_duplicates(),
        state::first_holding(entries, tokens, req) == Some(tokens[i]),
    ensures
        entries[tokens[j]].1 == 0 || (req matches Some(r) && entries[tokens[j]].0 != r),
    decreases tokens.len(),
{
    let front = tokens.drop_last();
    laws::first_holding_holds(entries, front, req);
    if state::first_holding(entries, front, req) is Some {
        let t = state::first_holding(entries, front, req)->0;
        let k = choose|k: int| 0 <= k < front.len() && front[k] == t;
        assert(tokens[k] == tokens[i]);
        assert(front[i] == tokens[i]);
        earlier_ones_hold_nothing(entries, front, req, i, j);
        assert(front[j] == tokens[j]);
    } else {
        if entries[tokens[j]].1 > 0 && (req matches Some(r) ==> entries[tokens[j]].0 == r) {
            if j < front.len() {
                held_slot_is_found(entries, front, req, j);
            }
        }
    }
}

proof fn held_slot_is_found(
    entries: Map<u64, (u64, u32)>,
    tokens: Seq<u64>,
    req: Option<u64>,
    j: int,
)
    requires
        0 <= j < tokens.len(),
        entries[tokens[j]].1 > 0,
        req matches Some(r) ==> entries[tokens[j]].0 == r,
    ensures
        state::first_holding(entries, tokens, req) is Some,
    decreases tokens.len(),
{
    if j < tokens.len() - 1 {
        assert(tokens.drop_last()[j] == tokens[j]);
        held_slot_is_found(entries, tokens.drop_last(), req, j);
    }
}

/// A token can be taken apart again: the rank stands above the lowest 48 bits, the counter in
/// them.
pub proof fn token_names_rank_and_counter(rank: u32, counter: u64)
    requires
        rank < 0x1_0000,
        counter < 0x1_0000_0000_0000,
    ensures
        state::token_of(rank, counter) as int == rank * 0x1_0000_0000_0000 + counter,
{
    let r = rank as u64;
    assert(((r << 48) | counter) == r * 0x1_0000_0000_0000 + counter) by (bit_vector)
        requires
            r < 0x1_0000,
            counter < 0x1_0000_0000_0000,
    ;
}

/// The counters of epochs and tokens go up by one, and start over after the last number.
pub proof fn counters_go_up(n: u64)
    ensures
        n < u64::MAX ==> state::successor(n) == n + 1,
        n == u64::MAX ==> state::successor(n) == 0,
{
}

/// Blocks without a holder go before blocks with one, and of those the ones outside the segment
/// index before the ones in it. Blocks with more holders never go.
pub proof fn tiers_by_holders_and_index(a: BlockMeta, b: BlockMeta)
    ensures
        state::tier_of(a) is None <==> a.ref_count > 1,
        a.ref_count == 0 && b.ref_count == 1 ==> state::tier_of(a)->0.order()
            < state::tier_of(b)->0.order(),
        a.ref_count == 1 && b.ref_count == 1 && !a.indexed && b.indexed ==> state::tier_of(
            a,
        )->0.order() < state::tier_of(b)->0.order(),
        a.ref_count <= 1 && a.ref_count == b.ref_count && a.indexed == b.indexed ==> state::tier_of(
            a,
        ) == state::tier_of(b),
{
}

/// The names of the tiers differ.
pub proof fn tier_names_differ(a: EvictionTier, b: EvictionTier)
    ensures
        a.name() == b.name() <==> a == b,
{
    reveal_strlit("a");
    reveal_strlit("b");
    reveal_strlit("c");
    assert("a"@[0] != "b"@[0]);
    assert("a"@[0] != "c"@[0]);
    assert("b"@[0] != "c"@[0]);
}

/// Recording a hash changes the hash of that block alone; registering the block under it changes
/// no other entry.
pub proof fn recording_a_hash(s: PoolState, id: u32, hash: u64, other: u32)
    requires
        s.inv(),
        s.live(id),
    ensures
        ({
            let t = s.mark(id, hash);
            &&& t.metas[id].content_hash == hash
            &&& t.metas[id].ref_count == s.metas[id].ref_count
            &&& t.metas[id].last_touched == s.metas[id].last_touched
            &&& t.metas[id].req_id == s.metas[id].req_id
            &&& t.metas[id].indexed == s.metas[id].indexed
            &&& t.metas[id].token_range == s.metas[id].token_range
            &&& t.live(other) == s.live(other)
            &&& s.live(other) && other != id ==> t.metas[other] == s.metas[other]
            &&& t.index == s.index
            &&& t.free == s.free
            &&& t.owned == s.owned
            &&& t.epoch == s.epoch
            &&& s.publish(id, hash).metas == t.metas
            &&& s.publish(id, hash).free == s.free
            &&& s.publish(id, hash).owned == s.owned
            &&& s.publish(id, hash).index.dom().contains(hash)
            &&& s.publish(id, hash).index[hash] == id
            &&& forall|h: u64|
                h != hash ==> {
                    &&& #[trigger] s.publish(id, hash).index.dom().contains(h)
                        == s.index.dom().contains(h)
                    &&& s.index.dom().contains(h) ==> s.publish(id, hash).index[h] == s.index[h]
                }
        }),
{
}

/// An allocation leaves the entries of the content index, but for the one of the block that it
/// evicts.
pub proof fn allocation_keeps_other_entries(
    s: PoolState,
    req: u64,
    range: TokenRange,
    dtype: CkvDtype,
    hash: u64,
)
    requires
        s.inv(),
        index_is_current(s),
        s.has_room(),
        s.index.dom().contains(hash),
    ensures
        s.spare() > 0 || s.victim() != Some(s.index[hash]) ==> {
            &&& s.allocate(req, range, dtype).index.dom().contains(hash)
            &&& s.allocate(req, range, dtype).index[hash] == s.index[hash]
        },
{
    if s.spare() <= 0 {
        if let Some(v) = s.victim() {
            assert(s.is_victim(v));
            reclaiming_keeps_index(s, v, state::renewed(v, s.total));
        }
    }
}

/// A block that arrives finds a reservation if and only if one still holds a slot, and it is one of
/// its own request if that request has any.
pub proof fn arriving_block_prefers_its_own_reservation(s: PoolState, req: u64, k: int)
    requires
        s.inv(),
        0 <= k < s.order.len(),
        s.reservations[s.order[k]].1 > 0,
    ensures
        s.claim(req) is Some,
        s.order.contains(s.claim(req)->0),
        s.reservations[s.claim(req)->0].1 > 0,
        s.reservations[s.order[k]].0 == req ==> s.reservations[s.claim(req)->0].0 == req,
{
    laws::first_holding_holds(s.reservations, s.order, Some(req));
    laws::first_holding_holds(s.reservations, s.order, None);
    held_slot_is_found(s.reservations, s.order, None, k);
    if s.reservations[s.order[k]].0 == req {
        held_slot_is_found(s.reservations, s.order, Some(req), k);
    }
}

/// Whether a list of evictions names block `id`.
pub open spec fn reports(list: Seq<(EvictionTier, u32)>, id: u32) -> bool {
    exists|k: int| 0 <= k < list.len() && (#[trigger] list[k]).1 == id
}

/// Whether a list of evictions has one entry for each block that was there in `s` and is not in
/// `t`, with the tier that it was in.
pub open spec fn reports_exactly(
    s: PoolState,
    t: PoolState,
    list: Seq<(EvictionTier, u32)>,
) -> bool {
    &&& forall|id: u32| #[trigger] reports(list, id) <==> s.live(id) && !t.live(id)
    &&& forall|k: int|
        0 <= k < list.len() ==> (if s.metas[(#[trigger] list[k]).1].indexed {
            list[k].0 is C
        } else {
            list[k].0 is B
        })
    &&& forall|j: int, k: int|
        0 <= j < k < list.len() ==> (#[trigger] list[j]).1 != (#[trigger] list[k]).1
}

proof fn evictions_up_to(s: PoolState, count: u32, n: nat)
    requires
        s.inv(),
    ensures
        reports_exactly(s, s.evict_until(count, n), s.evicted_until(count, n)),
        forall|id: u32| #[trigger]
            s.evict_until(count, n).live(id) ==> s.live(id) && s.evict_until(count, n).metas[id]
                == s.metas[id],
    decreases n,
{
    let list = s.evicted_until(count, n);
    let t = s.evict_until(count, n);
    if n > 0 {
        let m = s.evict();
        laws::evict_keeps_inv(s);
        let rest = if m.spare() >= count {
            Seq::<(EvictionTier, u32)>::empty()
        } else {
            m.evicted_until(count, (n - 1) as nat)
        };
        if m.spare() < count {
            evictions_up_to(m, count, (n - 1) as nat);
        } else {
            assert(reports_exactly(m, m, rest));
        }
        assert(reports_exactly(m, t, rest));
        match s.victim() {
            Some(v) => {
                assert(s.is_victim(v));
                assert(list =~= s.next_eviction() + rest);
                assert(list[0].1 == v);
                assert forall|k: int| 0 < k < list.len() implies {
                    &&& #[trigger] list[k] == rest[k - 1]
                    &&& m.live(list[k].1)
                } by {
                    assert(reports(rest, rest[k - 1].1));
                }
                assert forall|id: u32| #[trigger] reports(list, id) <==> s.live(id) && !t.live(
                    id,
                ) by {
                    assert(reports(rest, id) <==> m.live(id) && !t.live(id));
                    if reports(list, id) {
                        let k = choose|k: int| 0 <= k < list.len() && (#[trigger] list[k]).1 == id;
                        if k > 0 {
                            assert(rest[k - 1].1 == id);
                        } else if t.live(v) {
                            assert(m.live(v));
                        }
                    }
                    if s.live(id) && !t.live(id) && id != v {
                        assert(reports(rest, id));
                        let k = choose|k: int| 0 <= k < rest.len() && (#[trigger] rest[k]).1 == id;
                        assert(list[k + 1].1 == id);
                    }
                }
                assert forall|j: int, k: int| 0 <= j < k < list.len() implies (
                #[trigger] list[j]).1 != (#[trigger] list[k]).1 by {
                    if j > 0 {
                        assert(rest[j - 1].1 != rest[k - 1].1);
                    }
                }
                assert forall|k: int| 0 <= k < list.len() implies (if s.metas[(
                #[trigger] list[k]).1].indexed {
                    list[k].0 is C
                } else {
                    list[k].0 is B
                }) by {
                    if k > 0 {
                        assert(rest[k - 1] == list[k]);
                    }
                }
            },
            None => {
                assert(list =~= rest);
            },
        }
    }
}

/// What is evicted is reported, and nothing else: the list for an allocation or a reservation has
/// one entry for each block that it cost, with its tier.
pub proof fn evictions_are_reported(s: PoolState, count: u32)
    requires
        s.inv(),
    ensures
        reports_exactly(s, s.with_capacity(count), s.evicted_for_capacity(count)),
        reports_exactly(s, s.with_room(), s.evicted_for_room()),
        s.evicted_for_room().len() <= 1,
{
    let none = Seq::<(EvictionTier, u32)>::empty();
    assert(reports_exactly(s, s, none));
    if s.spare() < count {
        evictions_up_to(s, count, (count - s.spare()) as nat);
    }
    if s.spare() <= 0 {
        if let Some(v) = s.victim() {
            assert(s.is_victim(v));
            let list = s.next_eviction();
            assert(list[0].1 == v);
            assert(reports(list, v));
        }
    }
}

/// A block that was never handed out before, or whose slot was freed, gets a number in step with
/// its slot: numbers of one slot differ by multiples of the size of the pool.
pub proof fn numbers_of_a_slot(id: u32, total: u32)
    requires
        total > 0,
    ensures
        id < total ==> state::slot_in(id, total) == id,
        id + total <= u32::MAX ==> state::renewed(id, total) == id + total,
        id + total > u32::MAX ==> state::renewed(id, total) < total,
        state::slot_in(state::renewed(id, total), total) == state::slot_in(id, total),
{
    state::renewed_keeps_slot(id, total);
    if id < total {
        vstd::arithmetic::div_mod::lemma_small_mod(id as nat, total as nat);
    }
}

/// Releasing a request removes its list and leaves the lists of all other requests, the
/// reservations and the epoch.
pub proof fn released_request_leaves_other_lists(s: PoolState, req: u64)
    requires
        s.inv(),
        req != SHARED_SENTINEL,
    ensures
        s.release_request(req).owned == s.owned.remove(req),
        s.release_request(req).reservations == s.reservations,
        s.release_request(req).order == s.order,
        s.release_request(req).epoch == s.epoch,
        s.release_request(req).total == s.total,
{
    let f = PoolState { owned: s.owned.remove(req), ..s };
    let list = s.blocks_of(req);
    if s.owned.dom().contains(req) {
        assert(s.list_ok(req));
    }
    assert forall|i: int| 0 <= i < list.len() && f.live(#[trigger] list[i]) implies f.metas[list[i]].req_id
        == Some(req) by {
        assert(s.metas[s.owned[req][i]].req_id == Some(req));
    }
    releasing_keeps_lists(f, list, req);
}

proof fn releasing_keeps_lists(s: PoolState, ids: Seq<u32>, req: u64)
    requires
        !s.owned.dom().contains(req),
        forall|i: int|
            0 <= i < ids.len() && s.live(#[trigger] ids[i]) ==> s.metas[ids[i]].req_id == Some(req),
    ensures
        s.release_all(ids).owned == s.owned,
        s.release_all(ids).reservations == s.reservations,
        s.release_all(ids).order == s.order,
        s.release_all(ids).epoch == s.epoch,
        s.release_all(ids).total == s.total,
        forall|id: u32| #[trigger]
            s.release_all(ids).live(id) ==> s.live(id) && s.release_all(ids).metas[id].req_id
                == s.metas[id].req_id,
    decreases ids.len(),
{
    if ids.len() > 0 {
        let rest = ids.drop_last();
        let t = s.release_all(rest);
        assert forall|i: int| 0 <= i < rest.len() && s.live(#[trigger] rest[i]) implies s.metas[rest[i]].req_id
            == Some(req) by {
            assert(rest[i] == ids[i]);
        }
        releasing_keeps_lists(s, rest, req);
        let last = ids[ids.len() - 1];
        assert(ids.last() == last);
        if t.live(last) {
            assert(s.live(last));
            assert(t.metas[last].req_id == Some(req));
        }
        assert forall|id: u32| #[trigger] s.release_all(ids).live(id) implies s.live(id)
            && s.release_all(ids).metas[id].req_id == s.metas[id].req_id by {
            assert(t.live(id));
        }
    }
}

/// The list of a request is kept in order of allocation: a new block comes last, and a block that
/// leaves closes its gap.
pub proof fn lists_keep_their_order(
    s: PoolState,
    req: u64,
    range: TokenRange,
    dtype: CkvDtype,
    k: int,
)
    requires
        s.inv(),
        req != SHARED_SENTINEL,
    ensures
        s.spare() > 0 ==> s.allocate(req, range, dtype).blocks_of(req) == s.blocks_of(req).push(
            s.next_block(),
        ),
        0 <= k < s.blocks_of(req).len() ==> ({
            let list = s.blocks_of(req);
            let id = list[k];
            &&& s.live(id)
            &&& s.metas[id].ref_count == 1 ==> s.release(id).blocks_of(req) == list.take(k)
                + list.skip(k + 1)
            &&& s.victim() == Some(id) ==> s.evict().blocks_of(req) == list.take(k) + list.skip(
                k + 1,
            )
        }),
{
    let list = s.blocks_of(req);
    if 0 <= k < list.len() {
        assert(s.list_ok(req));
        assert(s.live(s.owned[req][k]));
        lists::without_at(list, k);
    }
}

/// A block under the sentinel for several owners leaves no list when it goes: who shares it is
/// recorded elsewhere.
pub proof fn shared_blocks_are_on_no_list(s: PoolState, id: u32)
    requires
        s.inv(),
        s.live(id),
        s.metas[id].req_id == Some(SHARED_SENTINEL),
    ensures
        s.release(id).owned == s.owned,
        s.victim() == Some(id) ==> s.evict().owned == s.owned,
{
}

/// What is not there is neither accessed nor released.
pub proof fn absent_blocks_stay_absent(s: PoolState, id: u32)
    requires
        !s.live(id),
    ensures
        s.touch(id) == s,
        s.release(id) == s,
{
}

/// A reservation is on record under its token, as the youngest, whatever stood there before; no
/// other reservation changes.
pub proof fn reservation_is_recorded(s: PoolState, rank: u32, req: u64, count: u32, other: u64)
    requires
        s.inv(),
        other != state::token_of(rank, s.next_reservation),
    ensures
        ({
            let token = state::token_of(rank, s.next_reservation);
            let t = s.reserve(rank, req, count);
            &&& t.reservations.dom().contains(token)
            &&& t.reservations[token] == (req, count)
            &&& t.order.last() == token
            &&& t.reservations.dom().contains(other) == s.reservations.dom().contains(other)
            &&& s.reservations.dom().contains(other) ==> t.reservations[other]
                == s.reservations[other]
            &&& t.order.contains(other) <==> s.order.contains(other)
            &&& t.metas == s.metas
            &&& t.free == s.free
            &&& t.owned == s.owned
            &&& t.index == s.index
        }),
{
    let token = state::token_of(rank, s.next_reservation);
    let rest = lists::without(s.order, token);
    lists::without_membership(s.order, token);
    let t = s.reserve(rank, req, count);
    if rest.contains(other) {
        let i = choose|i: int| 0 <= i < rest.len() && rest[i] == other;
        assert(t.order[i] == other);
    }
    if t.order.contains(other) {
        let i = choose|i: int| 0 <= i < t.order.len() && t.order[i] == other;
        assert(rest[i] == other);
    }
}

} // verus!
