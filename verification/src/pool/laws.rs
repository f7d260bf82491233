//! What the operations of a pool keep.

use vstd::prelude::*;

use crate::block::{BlockMeta, TokenRange, SHARED_SENTINEL};
use crate::config::CkvDtype;
use crate::lists;
use crate::pool::state::{self, PoolState};

verus! {

/// A new pool satisfies the invariant.
pub proof fn empty_keeps_inv(total: u32)
    ensures
        PoolState::empty(total).inv(),
{
    let s = PoolState::empty(total);
    assert forall|k: int| 0 <= k < s.total implies #[trigger] s.occupied(k) || s.vacant(k) by {
        vstd::arithmetic::div_mod::lemma_small_mod(k as nat, total as nat);
        assert(s.slot(s.free[k]) == k);
    }
    assert forall|i: int, j: int|
        #![trigger s.free[i], s.free[j]]
        0 <= i < j < s.free.len() implies s.slot(s.free[i]) != s.slot(s.free[j]) by {
        vstd::arithmetic::div_mod::lemma_small_mod(i as nat, total as nat);
        vstd::arithmetic::div_mod::lemma_small_mod(j as nat, total as nat);
    }
}

/// Slots stay occupied or free when the same blocks are live and the same slots are free.
pub proof fn slots_unchanged(s: PoolState, t: PoolState)
    requires
        t.total == s.total,
        t.free == s.free,
        t.metas.dom() == s.metas.dom(),
    ensures
        forall|k: int| #[trigger] t.occupied(k) == s.occupied(k),
        forall|k: int| #[trigger] t.vacant(k) == s.vacant(k),
{
    assert forall|k: int| #[trigger] t.occupied(k) == s.occupied(k) by {
        if s.occupied(k) {
            let id = choose|id: u32| #[trigger] s.live(id) && s.slot(id) == k;
            assert(t.live(id));
        }
        if t.occupied(k) {
            let id = choose|id: u32| #[trigger] t.live(id) && t.slot(id) == k;
            assert(s.live(id));
        }
    }
    assert forall|k: int| #[trigger] t.vacant(k) == s.vacant(k) by {
        if s.vacant(k) {
            let i = choose|i: int|
                0 <= i < s.free.len() && s.slot(#[trigger] s.free[i]) == k;
            assert(t.slot(t.free[i]) == k);
        }
        if t.vacant(k) {
            let i = choose|i: int|
                0 <= i < t.free.len() && t.slot(#[trigger] t.free[i]) == k;
            assert(s.slot(s.free[i]) == k);
        }
    }
}

/// Changing a live block's metadata, but not its identity, its owner or the existence of a
/// reference, keeps the invariant.
proof fn update_keeps_inv(s: PoolState, t: PoolState, id: u32)
    requires
        s.inv(),
        s.live(id),
        t.total == s.total,
        t.free == s.free,
        t.owned == s.owned,
        t.reservations == s.reservations,
        t.order == s.order,
        t.metas.dom() == s.metas.dom(),
        forall|other: u32| other != id && s.live(other) ==> t.metas[other] == s.metas[other],
        t.metas[id].block_id == s.metas[id].block_id,
        t.metas[id].req_id == s.metas[id].req_id,
        t.metas[id].ref_count >= 1,
    ensures
        t.inv(),
{
    assert forall|o: u32| #[trigger] t.live(o) == s.live(o) by {}
    slots_unchanged(s, t);
    assert forall|req: u64|
        #![trigger t.owned.dom().contains(req)]
        t.owned.dom().contains(req) && req != SHARED_SENTINEL implies t.list_ok(req) by {
        assert(s.list_ok(req));
        assert forall|i: int| 0 <= i < t.owned[req].len() implies {
            &&& t.live(#[trigger] t.owned[req][i])
            &&& t.metas[t.owned[req][i]].req_id == Some(req)
        } by {
            assert(s.live(s.owned[req][i]));
        }
    }
}

/// An access keeps the invariant.
pub proof fn touch_keeps_inv(s: PoolState, id: u32)
    requires
        s.inv(),
    ensures
        s.touch(id).inv(),
{
    if s.live(id) {
        assert(s.touch(id).metas.dom() =~= s.metas.dom());
        update_keeps_inv(s, s.touch(id), id);
    }
}

/// An access changes nothing but the time of the last access.
pub proof fn touch_is_only_a_touch(s: PoolState, t: PoolState, id: u32)
    requires
        s.same_but_touched(t),
    ensures
        s.same_but_touched(t.touch(id)),
{
    if t.live(id) {
        assert(t.touch(id).metas.dom() =~= s.metas.dom());
        assert forall|o: u32| #[trigger] s.live(o) implies t.touch(id).metas[o] == (BlockMeta {
            last_touched: t.touch(id).metas[o].last_touched,
            ..s.metas[o]
        }) by {}
    }
}

/// Every state differs from itself in no access.
pub proof fn touching_nothing(s: PoolState)
    ensures
        s.same_but_touched(s),
{
}

/// Accesses after accesses are accesses.
pub proof fn touches_compose(a: PoolState, b: PoolState, c: PoolState)
    requires
        a.same_but_touched(b),
        b.same_but_touched(c),
    ensures
        a.same_but_touched(c),
{
    assert forall|id: u32| #[trigger] a.live(id) implies c.metas[id] == (BlockMeta {
        last_touched: c.metas[id].last_touched,
        ..a.metas[id]
    }) by {
        assert(b.live(id));
    }
}

/// Setting a positive reference count keeps the invariant.
pub proof fn with_refs_keeps_inv(s: PoolState, id: u32, refs: u32)
    requires
        s.inv(),
        s.live(id),
        refs >= 1,
    ensures
        s.with_refs(id, refs).inv(),
{
    assert(s.with_refs(id, refs).metas.dom() =~= s.metas.dom());
    update_keeps_inv(s, s.with_refs(id, refs), id);
}

/// Recording a content hash keeps the invariant.
pub proof fn publish_keeps_inv(s: PoolState, id: u32, hash: u64)
    requires
        s.inv(),
        s.live(id),
    ensures
        s.mark(id, hash).inv(),
        s.publish(id, hash).inv(),
{
    assert(s.mark(id, hash).metas.dom() =~= s.metas.dom());
    assert(s.publish(id, hash).metas.dom() =~= s.metas.dom());
    update_keeps_inv(s, s.mark(id, hash), id);
    update_keeps_inv(s, s.publish(id, hash), id);
}

/// Freeing the slot of a live block keeps the invariant.
pub proof fn reclaim_keeps_inv(s: PoolState, id: u32, next: u32)
    requires
        s.inv(),
        s.live(id),
        s.slot(next) == s.slot(id),
    ensures
        s.reclaim_as(id, next).inv(),
{
    let t = s.reclaim_as(id, next);
    let n = s.free.len() as int;
    assert(t.free[n] == next);
    assert forall|o: u32| #[trigger] t.live(o) == (s.live(o) && o != id) by {}
    assert forall|i: int, j: int|
        #![trigger t.free[i], t.free[j]]
        0 <= i < j < t.free.len() implies t.slot(t.free[i]) != t.slot(t.free[j]) by {
        assert(t.free[i] == s.free[i]);
        if j < n {
            assert(t.free[j] == s.free[j]);
        }
    }
    assert forall|i: int, o: u32|
        #![trigger t.free[i], t.live(o)]
        0 <= i < t.free.len() && t.live(o) implies t.slot(t.free[i]) != t.slot(o) by {
        assert(s.live(o));
        if i < n {
            assert(t.free[i] == s.free[i]);
        }
    }
    assert forall|a: u32, b: u32|
        #![trigger t.live(a), t.live(b)]
        t.live(a) && t.live(b) && a != b implies t.slot(a) != t.slot(b) by {
        assert(s.live(a) && s.live(b));
    }
    assert forall|k: int| 0 <= k < t.total implies #[trigger] t.occupied(k) || t.vacant(k) by {
        assert(s.occupied(k) || s.vacant(k));
        if k == s.slot(id) {
            assert(t.slot(t.free[n]) == k);
        } else if s.occupied(k) {
            let o = choose|o: u32| #[trigger] s.live(o) && s.slot(o) == k;
            assert(t.live(o));
        } else {
            let i = choose|i: int|
                0 <= i < s.free.len() && s.slot(#[trigger] s.free[i]) == k;
            assert(t.free[i] == s.free[i]);
            assert(t.slot(t.free[i]) == k);
        }
    }
    assert forall|req: u64|
        #![trigger t.owned.dom().contains(req)]
        t.owned.dom().contains(req) && req != SHARED_SENTINEL implies t.list_ok(req) by {
        assert(s.owned.dom().contains(req));
        assert(s.list_ok(req));
        lists::without_membership(s.owned[req], id);
        assert forall|i: int| 0 <= i < t.owned[req].len() implies {
            &&& t.live(#[trigger] t.owned[req][i])
            &&& t.metas[t.owned[req][i]].req_id == Some(req)
        } by {
            let x = t.owned[req][i];
            if s.metas[id].req_id == Some(req) {
                assert(lists::without(s.owned[req], id).contains(x));
                let j = choose|j: int| 0 <= j < s.owned[req].len() && s.owned[req][j] == x;
                assert(s.live(s.owned[req][j]));
            } else {
                assert(s.live(s.owned[req][i]));
                assert(x != id);
            }
        }
    }
}

/// Giving up a reference keeps the invariant.
pub proof fn release_keeps_inv(s: PoolState, id: u32)
    requires
        s.inv(),
    ensures
        s.release(id).inv(),
{
    if s.live(id) {
        if s.metas[id].ref_count == 1 {
            reclaim_keeps_inv(s, id, id);
        } else {
            with_refs_keeps_inv(s, id, (s.metas[id].ref_count - 1) as u32);
        }
    }
}

/// Giving up a reference to each of several blocks keeps the invariant.
pub proof fn release_all_keeps_inv(s: PoolState, ids: Seq<u32>)
    requires
        s.inv(),
    ensures
        s.release_all(ids).inv(),
    decreases ids.len(),
{
    if ids.len() > 0 {
        release_all_keeps_inv(s, ids.drop_last());
        release_keeps_inv(s.release_all(ids.drop_last()), ids.last());
    }
}

/// Forgetting the list of a request keeps the invariant.
pub proof fn forget_keeps_inv(s: PoolState, req: u64)
    requires
        s.inv(),
    ensures
        (PoolState { owned: s.owned.remove(req), ..s }).inv(),
{
    let t = PoolState { owned: s.owned.remove(req), ..s };
    assert forall|o: u32| #[trigger] t.live(o) == s.live(o) by {}
    slots_unchanged(s, t);
    assert forall|r: u64|
        #![trigger t.owned.dom().contains(r)]
        t.owned.dom().contains(r) && r != SHARED_SENTINEL implies t.list_ok(r) by {
        assert(s.owned.dom().contains(r));
        assert(s.list_ok(r));
        assert forall|i: int| 0 <= i < t.owned[r].len() implies {
            &&& t.live(#[trigger] t.owned[r][i])
            &&& t.metas[t.owned[r][i]].req_id == Some(r)
        } by {
            assert(s.live(s.owned[r][i]));
        }
    }
}

/// Releasing a request keeps the invariant.
pub proof fn release_request_keeps_inv(s: PoolState, req: u64)
    requires
        s.inv(),
    ensures
        s.release_request(req).inv(),
{
    forget_keeps_inv(s, req);
    release_all_keeps_inv(PoolState { owned: s.owned.remove(req), ..s }, s.blocks_of(req));
}

/// Evicting a block keeps the invariant, and frees it.
pub proof fn evict_keeps_inv(s: PoolState)
    requires
        s.inv(),
    ensures
        s.evict().inv(),
        s.victim() is Some ==> s.evict().free.len() == s.free.len() + 1,
        s.victim() is None ==> s.evict() == s,
{
    if let Some(id) = s.victim() {
        assert(s.is_victim(id));
        state::renewed_keeps_slot(id, s.total);
        reclaim_keeps_inv(s, id, state::renewed(id, s.total));
    }
}

/// An allocation keeps the invariant.
pub proof fn allocate_keeps_inv(s: PoolState, req: u64, range: TokenRange, dtype: CkvDtype)
    requires
        s.inv(),
        s.has_room(),
    ensures
        s.with_room().inv(),
        s.allocate(req, range, dtype).inv(),
{
    evict_keeps_inv(s);
    let m = s.with_room();
    let id = s.next_block();
    let t = s.allocate(req, range, dtype);
    let last = m.free.len() - 1;
    assert(m.free[last] == id);
    assert(!m.live(id));
    assert forall|o: u32| #[trigger] t.live(o) == (m.live(o) || o == id) by {}
    assert forall|i: int, j: int|
        #![trigger t.free[i], t.free[j]]
        0 <= i < j < t.free.len() implies t.slot(t.free[i]) != t.slot(t.free[j]) by {
        assert(t.free[i] == m.free[i] && t.free[j] == m.free[j]);
    }
    assert forall|i: int, o: u32|
        #![trigger t.free[i], t.live(o)]
        0 <= i < t.free.len() && t.live(o) implies t.slot(t.free[i]) != t.slot(o) by {
        assert(t.free[i] == m.free[i]);
        if o != id {
            assert(m.live(o));
        } else {
            assert(m.slot(m.free[i]) != m.slot(m.free[last]));
        }
    }
    assert forall|a: u32, b: u32|
        #![trigger t.live(a), t.live(b)]
        t.live(a) && t.live(b) && a != b implies t.slot(a) != t.slot(b) by {
        if a == id {
            assert(m.live(b));
            assert(m.slot(m.free[last]) != m.slot(b));
        } else if b == id {
            assert(m.live(a));
            assert(m.slot(m.free[last]) != m.slot(a));
        } else {
            assert(m.live(a) && m.live(b));
        }
    }
    assert forall|k: int| 0 <= k < t.total implies #[trigger] t.occupied(k) || t.vacant(k) by {
        assert(m.occupied(k) || m.vacant(k));
        if m.occupied(k) {
            let o = choose|o: u32| #[trigger] m.live(o) && m.slot(o) == k;
            assert(t.live(o));
        } else {
            let i = choose|i: int|
                0 <= i < m.free.len() && m.slot(#[trigger] m.free[i]) == k;
            if i == last {
                assert(t.live(id));
            } else {
                assert(t.free[i] == m.free[i]);
                assert(t.slot(t.free[i]) == k);
            }
        }
    }
    assert forall|r: u64|
        #![trigger t.owned.dom().contains(r)]
        t.owned.dom().contains(r) && r != SHARED_SENTINEL implies t.list_ok(r) by {
        if m.owned.dom().contains(r) {
            assert(m.list_ok(r));
        }
        assert forall|i: int| 0 <= i < m.blocks_of(r).len() implies m.live(
            #[trigger] m.blocks_of(r)[i],
        ) && m.metas[m.blocks_of(r)[i]].req_id == Some(r) by {
            assert(m.live(m.owned[r][i]));
        }
        assert forall|i: int| 0 <= i < t.owned[r].len() implies {
            &&& t.live(#[trigger] t.owned[r][i])
            &&& t.metas[t.owned[r][i]].req_id == Some(r)
        } by {
            if i < m.blocks_of(r).len() {
                assert(t.owned[r][i] == m.blocks_of(r)[i]);
            }
        }
        assert(t.owned[r].no_duplicates()) by {
            assert(m.blocks_of(r).no_duplicates());
            assert forall|i: int| 0 <= i < m.blocks_of(r).len() implies m.blocks_of(r)[i]
                != id by {
                assert(m.live(m.blocks_of(r)[i]));
            }
        }
    }
}

/// Making capacity for a reservation keeps the invariant.
pub proof fn evict_until_keeps_inv(s: PoolState, count: u32, n: nat)
    requires
        s.inv(),
    ensures
        s.evict_until(count, n).inv(),
    decreases n,
{
    if n > 0 {
        evict_keeps_inv(s);
        if s.evict().spare() < count {
            evict_until_keeps_inv(s.evict(), count, (n - 1) as nat);
        }
    }
}

/// Eviction does not change the size of the pool.
pub proof fn evict_keeps_total(s: PoolState)
    ensures
        s.evict().total == s.total,
{
}

/// Making capacity does not change the size of the pool.
pub proof fn with_capacity_keeps_total(s: PoolState, count: u32)
    ensures
        s.with_capacity(count).total == s.total,
{
    if s.spare() < count {
        evict_until_keeps_total(s, count, (count - s.spare()) as nat);
    }
}

proof fn evict_until_keeps_total(s: PoolState, count: u32, n: nat)
    ensures
        s.evict_until(count, n).total == s.total,
    decreases n,
{
    if n > 0 && s.evict().spare() < count {
        evict_until_keeps_total(s.evict(), count, (n - 1) as nat);
    }
}

/// Releasing blocks does not change the size of the pool.
pub proof fn release_all_keeps_total(s: PoolState, ids: Seq<u32>)
    ensures
        s.release_all(ids).total == s.total,
    decreases ids.len(),
{
    if ids.len() > 0 {
        release_all_keeps_total(s, ids.drop_last());
    }
}

/// Releasing a request does not change the size of the pool.
pub proof fn release_request_keeps_total(s: PoolState, req: u64)
    ensures
        s.release_request(req).total == s.total,
{
    release_all_keeps_total(PoolState { owned: s.owned.remove(req), ..s }, s.blocks_of(req));
}

/// A reference that is added and given up again leaves no trace.
pub proof fn retain_then_release(s: PoolState, id: u32)
    requires
        s.inv(),
        s.live(id),
        s.metas[id].ref_count < u32::MAX,
    ensures
        s.retain(id).inv(),
        s.retain(id).release(id) == s,
{
    with_refs_keeps_inv(s, id, (s.metas[id].ref_count + 1) as u32);
    let t = s.retain(id).release(id);
    assert(t.metas =~= s.metas);
}

/// An allocation does not evict a block with more than one reference.
pub proof fn allocation_spares_shared_blocks(
    s: PoolState,
    req: u64,
    range: TokenRange,
    dtype: CkvDtype,
    id: u32,
)
    requires
        s.inv(),
        s.has_room(),
        s.live(id),
        s.metas[id].ref_count > 1,
    ensures
        s.allocate(req, range, dtype).live(id),
        s.allocate(req, range, dtype).metas[id] == s.metas[id],
        s.next_block() != id,
{
    allocate_keeps_inv(s, req, range, dtype);
    if let Some(v) = s.victim() {
        assert(s.is_victim(v));
        assert(v != id);
    }
    let m = s.with_room();
    assert(m.live(id));
    assert(m.free[m.free.len() - 1] == s.next_block());
}

/// Giving up a reference after accesses has the same effect as without them, but for the times
/// of the last accesses.
pub proof fn release_after_touch(s: PoolState, t: PoolState, id: u32)
    requires
        s.same_but_touched(t),
    ensures
        s.release(id).same_but_touched(t.release(id)),
{
    let a = s.release(id);
    let b = t.release(id);
    assert(s.live(id) == t.live(id));
    assert(a.metas.dom() =~= b.metas.dom());
    assert(a.owned =~= b.owned);
    assert(a.index =~= b.index);
    assert(b =~= (PoolState { metas: b.metas, epoch: b.epoch, ..a }));
    assert forall|o: u32| #[trigger] a.live(o) implies b.metas[o] == (BlockMeta {
        last_touched: b.metas[o].last_touched,
        ..a.metas[o]
    }) by {
        assert(s.live(o));
    }
}

/// The number of live blocks and the number of free blocks add up to the size of the pool.
pub proof fn used_counts_live_blocks(s: PoolState)
    requires
        s.inv(),
    ensures
        s.metas.dom().finite(),
        s.metas.dom().len() == s.used(),
        0 <= s.used() <= s.total,
{
    let all = vstd::set_lib::set_int_range(0, s.total as int);
    vstd::set_lib::lemma_int_range(0, s.total as int);
    let taken = all.filter(|k: int| s.occupied(k));
    let holder = |k: int| choose|id: u32| #[trigger] s.live(id) && s.slot(id) == k;
    let slots = Seq::new(s.free.len(), |i: int| s.slot(s.free[i]));
    assert(slots.no_duplicates()) by {
        assert forall|i: int, j: int|
            0 <= i < slots.len() && 0 <= j < slots.len() && i != j implies slots[i] != slots[j] by {
            assert(s.slot(s.free[i]) != s.slot(s.free[j])) by {
                if i < j {
                    assert(s.slot(s.free[i]) != s.slot(s.free[j]));
                } else {
                    assert(s.slot(s.free[j]) != s.slot(s.free[i]));
                }
            }
        }
    }
    slots.unique_seq_to_set();
    let open = slots.to_set();
    assert(taken + open =~= all) by {
        assert forall|k: int| (taken + open).contains(k) == all.contains(k) by {
            if all.contains(k) && !taken.contains(k) {
                assert(s.vacant(k));
                let i = choose|i: int|
                    0 <= i < s.free.len() && s.slot(#[trigger] s.free[i]) == k;
                assert(slots[i] == k);
            }
            if open.contains(k) {
                let i = choose|i: int| 0 <= i < slots.len() && slots[i] == k;
                state::renewed_keeps_slot(s.free[i], s.total);
            }
        }
    }
    assert(taken.disjoint(open)) by {
        assert forall|k: int| !(taken.contains(k) && open.contains(k)) by {
            if taken.contains(k) && open.contains(k) {
                let i = choose|i: int| 0 <= i < slots.len() && slots[i] == k;
                let id = choose|id: u32| #[trigger] s.live(id) && s.slot(id) == k;
                assert(s.slot(s.free[i]) != s.slot(id));
            }
        }
    }
    vstd::set_lib::lemma_set_disjoint_lens(taken, open);
    assert(taken.map(holder) =~= s.metas.dom()) by {
        assert forall|id: u32| taken.map(holder).contains(id) == s.metas.dom().contains(id) by {
            if s.live(id) {
                let k = s.slot(id);
                state::renewed_keeps_slot(id, s.total);
                assert(s.occupied(k));
                assert(taken.contains(k));
                assert(s.live(holder(k)) && s.slot(holder(k)) == k);
                assert(holder(k) == id);
            }
            if taken.map(holder).contains(id) {
                let k = choose|k: int| taken.contains(k) && holder(k) == id;
                assert(s.occupied(k));
                assert(s.live(holder(k)));
            }
        }
    }
    assert forall|a: int, b: int|
        taken.contains(a) && taken.contains(b) && #[trigger] holder(a) == #[trigger] holder(
            b,
        ) implies a == b by {
        assert(s.occupied(a) && s.occupied(b));
        assert(s.slot(holder(a)) == a && s.slot(holder(b)) == b);
    }
    vstd::set_lib::lemma_map_size(taken, s.metas.dom(), holder);
}

/// Freeing a block that is not allocated changes nothing.
pub proof fn release_of_unknown_block_is_a_no_op(s: PoolState, id: u32)
    requires
        !s.live(id),
    ensures
        s.release(id) == s,
{
}

/// A block that is allocated while a free one is not reserved, and then freed, leaves the blocks,
/// the free list, the index and the lists of the requests as they were.
pub proof fn allocate_then_release(
    s: PoolState,
    req: u64,
    range: TokenRange,
    dtype: CkvDtype,
    other_req: u64,
)
    requires
        s.inv(),
        s.spare() > 0,
        req != SHARED_SENTINEL,
    ensures
        ({
            let t = s.allocate(req, range, dtype).release(s.next_block());
            &&& !s.live(s.next_block())
            &&& t.metas == s.metas
            &&& t.free == s.free
            &&& t.index == s.index
            &&& t.blocks_of(other_req) == s.blocks_of(other_req)
        }),
{
    let id = s.next_block();
    let m = s.allocate(req, range, dtype);
    let t = m.release(id);
    allocate_keeps_inv(s, req, range, dtype);
    assert(s.free[s.free.len() - 1] == id);
    assert(!s.live(id));
    assert(t.metas =~= s.metas);
    assert(t.free =~= s.free);
    let list = s.blocks_of(req);
    assert forall|i: int| 0 <= i < list.len() implies #[trigger] list[i] != id by {
        assert(s.list_ok(req));
        assert(s.live(s.owned[req][i]));
        assert(s.slot(s.free[s.free.len() - 1]) != s.slot(list[i]));
    }
    lists::without_push(list, id, id);
    lists::without_absent(list, id);
}

/// Whether every block was last accessed before the next epoch.
pub open spec fn epochs_ordered(s: PoolState) -> bool {
    forall|id: u32| #[trigger] s.live(id) ==> s.metas[id].last_touched < s.epoch
}

/// As long as the epoch counter does not wrap around, accesses and allocations keep every block
/// older than the next epoch, and no other operation makes a block younger.
pub proof fn epochs_stay_ordered(
    s: PoolState,
    id: u32,
    req: u64,
    range: TokenRange,
    dtype: CkvDtype,
    hash: u64,
)
    requires
        s.inv(),
        epochs_ordered(s),
        s.epoch < u64::MAX,
    ensures
        epochs_ordered(s.touch(id)),
        s.has_room() ==> epochs_ordered(s.allocate(req, range, dtype)),
        epochs_ordered(s.release(id)),
        epochs_ordered(s.evict()),
        s.live(id) ==> epochs_ordered(s.retain(id)),
        s.live(id) ==> epochs_ordered(s.publish(id, hash)),
        s.live(id) ==> epochs_ordered(s.mark(id, hash)),
{
    if let Some(v) = s.victim() {
        assert(s.is_victim(v));
    }
    assert forall|o: u32| #[trigger] s.evict().live(o) implies s.live(o) && s.evict().metas[o]
        == s.metas[o] by {}
    assert forall|o: u32| #[trigger] s.touch(id).live(o) implies s.live(o) by {}
    assert forall|o: u32| #[trigger] s.release(id).live(o) implies s.live(o) by {}
    if s.live(id) {
        assert forall|o: u32| #[trigger] s.retain(id).live(o) implies s.live(o) by {}
        assert forall|o: u32| #[trigger] s.publish(id, hash).live(o) implies s.live(o) by {}
        assert forall|o: u32| #[trigger] s.mark(id, hash).live(o) implies s.live(o) by {}
    }
    if s.has_room() {
        let t = s.allocate(req, range, dtype);
        assert forall|o: u32| #[trigger] t.live(o) implies t.metas[o].last_touched < t.epoch by {
            if o != s.next_block() {
                assert(s.with_room().live(o));
            }
        }
    }
}

/// Least recently used first: after an access to a block, every other block of its tier is
/// evicted before it.
pub proof fn touched_block_is_evicted_last(s: PoolState, id: u32, other: u32)
    requires
        s.inv(),
        epochs_ordered(s),
        s.live(id),
        s.live(other),
        id != other,
        state::tier_of(s.metas[id]) is Some,
        state::tier_of(s.metas[other]) == state::tier_of(s.metas[id]),
    ensures
        s.touch(id).evicts_before(other, id),
{
}

/// Eviction takes a block without other holders, from the first tier that has one, and within
/// the tier the one that was not accessed for the longest time.
pub proof fn eviction_order(s: PoolState, victim: u32, other: u32)
    requires
        s.victim() == Some(victim),
    ensures
        s.live(victim),
        s.metas[victim].ref_count <= 1,
        s.evictable(other) ==> {
            let v = state::tier_of(s.metas[victim])->0.order();
            let o = state::tier_of(s.metas[other])->0.order();
            v < o || (v == o && s.metas[victim].last_touched <= s.metas[other].last_touched)
        },
{
    assert(s.is_victim(victim));
    if s.evictable(other) && other != victim {
        assert(s.evicts_before(victim, other));
    }
}

/// A block with more than one reference survives every eviction, with its metadata.
pub proof fn eviction_spares_shared_blocks(s: PoolState, id: u32)
    requires
        s.live(id),
        s.metas[id].ref_count > 1,
    ensures
        s.evict().live(id),
        s.evict().metas[id] == s.metas[id],
{
    if let Some(v) = s.victim() {
        assert(s.is_victim(v));
    }
}

/// A request that lost a block to an eviction finds it absent, also after the slot was handed out
/// again, and freeing it late changes nothing. In a pool with more than half as many slots as
/// there are numbers, the numbers start over too soon.
pub proof fn evicted_block_is_absent(
    s: PoolState,
    victim: u32,
    req: u64,
    range: TokenRange,
    dtype: CkvDtype,
)
    requires
        s.inv(),
        s.spare() == 0,
        s.victim() == Some(victim),
        s.total <= 0x8000_0000,
    ensures
        s.has_room(),
        !s.evict().live(victim),
        !s.allocate(req, range, dtype).live(victim),
        s.allocate(req, range, dtype).release(victim) == s.allocate(req, range, dtype),
{
    assert(s.is_victim(victim));
    state::renewed_keeps_slot(victim, s.total);
}

/// The best victim among the blocks in the first `n` slots.
proof fn best_below(s: PoolState, n: int) -> (best: Option<u32>)
    requires
        s.inv(),
        0 <= n <= s.total,
    ensures
        match best {
            Some(id) => {
                &&& s.slot(id) < n
                &&& s.evictable(id)
                &&& forall|other: u32|
                    #![trigger s.evictable(other)]
                    s.slot(other) < n && s.evictable(other) && other != id ==> s.evicts_before(
                        id,
                        other,
                    )
            },
            None => forall|other: u32| s.slot(other) < n ==> !#[trigger] s.evictable(other),
        },
    decreases n,
{
    if n == 0 {
        assert forall|other: u32| s.slot(other) < n implies !#[trigger] s.evictable(other) by {
            if s.live(other) {
                state::renewed_keeps_slot(other, s.total);
            }
        }
        None
    } else {
        let best = best_below(s, n - 1);
        if exists|id: u32| s.evictable(id) && s.slot(id) == n - 1 {
            let id = choose|id: u32| s.evictable(id) && s.slot(id) == n - 1;
            assert forall|other: u32| s.evictable(other) && s.slot(other) == n - 1 implies other
                == id by {
                assert(s.live(other) && s.live(id));
            }
            match best {
                None => Some(id),
                Some(b) => if s.evicts_before(id, b) {
                    Some(id)
                } else {
                    Some(b)
                },
            }
        } else {
            best
        }
    }
}

/// A block is evicted unless every live block is shared.
pub proof fn some_block_is_evicted(s: PoolState)
    requires
        s.inv(),
    ensures
        s.victim() is Some <==> exists|id: u32| s.evictable(id),
{
    let best = best_below(s, s.total as int);
    match best {
        Some(id) => {
            assert forall|other: u32|
                #![trigger s.evictable(other)]
                s.evictable(other) && other != id implies s.evicts_before(id, other) by {
                assert(s.live(other));
                state::renewed_keeps_slot(other, s.total);
            }
            assert(s.is_victim(id));
            state::victim_is_unique(s, id);
        },
        None => {
            assert forall|id: u32| !#[trigger] s.evictable(id) by {
                if s.live(id) {
                    state::renewed_keeps_slot(id, s.total);
                }
            }
            if s.victim() is Some {
                assert(s.is_victim(s.victim()->0));
            }
        },
    }
}

/// An allocation fails if and only if reservations hold every free block and every other block is
/// shared.
pub proof fn out_of_blocks_only_when_all_are_shared(s: PoolState)
    requires
        s.inv(),
    ensures
        !s.has_room() <==> s.spare() == 0 && forall|id: u32| #[trigger]
            s.live(id) ==> s.metas[id].ref_count > 1,
{
    some_block_is_evicted(s);
    evict_keeps_inv(s);
    if exists|id: u32| s.evictable(id) {
        let id = choose|id: u32| s.evictable(id);
        assert(s.live(id));
    }
    if s.spare() == 0 && !(exists|id: u32| s.evictable(id)) {
        assert forall|id: u32| #[trigger] s.live(id) implies s.metas[id].ref_count > 1 by {
            assert(!s.evictable(id));
        }
    }
}

/// What giving up a reference to each of several distinct blocks does to block `id`.
proof fn release_all_effect(s: PoolState, ids: Seq<u32>, id: u32)
    requires
        s.inv(),
        ids.no_duplicates(),
    ensures
        ({
            let t = s.release_all(ids);
            if !ids.contains(id) || !s.live(id) {
                &&& t.live(id) == s.live(id)
                &&& s.live(id) ==> t.metas[id] == s.metas[id]
            } else if s.metas[id].ref_count == 1 {
                !t.live(id)
            } else {
                &&& t.live(id)
                &&& t.metas[id] == (BlockMeta {
                    ref_count: (s.metas[id].ref_count - 1) as u32,
                    ..s.metas[id]
                })
            }
        }),
    decreases ids.len(),
{
    if ids.len() > 0 {
        let rest = ids.drop_last();
        let last = ids.last();
        release_all_effect(s, rest, id);
        release_all_effect(s, rest, last);
        assert(!rest.contains(last)) by {
            if rest.contains(last) {
                let i = choose|i: int| 0 <= i < rest.len() && rest[i] == last;
                assert(ids[i] == ids[ids.len() - 1]);
            }
        }
        assert(ids.contains(id) == (rest.contains(id) || id == last)) by {
            if id == last {
                assert(ids[ids.len() - 1] == id);
            }
            if rest.contains(id) {
                let i = choose|i: int| 0 <= i < rest.len() && rest[i] == id;
                assert(ids[i] == id);
            }
            if ids.contains(id) {
                let i = choose|i: int| 0 <= i < ids.len() && ids[i] == id;
                if i < rest.len() {
                    assert(rest[i] == id);
                }
            }
        }
    }
}

/// Releasing a request gives up exactly one reference to each block on its list, and frees the
/// blocks that had no other holder. Every other block keeps its metadata.
pub proof fn release_request_is_exact(s: PoolState, req: u64, id: u32)
    requires
        s.inv(),
        req != SHARED_SENTINEL,
    ensures
        ({
            let t = s.release_request(req);
            if !s.blocks_of(req).contains(id) {
                &&& t.live(id) == s.live(id)
                &&& s.live(id) ==> t.metas[id] == s.metas[id]
            } else {
                &&& s.live(id)
                &&& t.live(id) == (s.metas[id].ref_count > 1)
                &&& t.live(id) ==> t.metas[id].ref_count == s.metas[id].ref_count - 1
            }
        }),
        s.release_request(req).blocks_of(req).len() == 0,
{
    let f = PoolState { owned: s.owned.remove(req), ..s };
    let list = s.blocks_of(req);
    forget_keeps_inv(s, req);
    if s.owned.dom().contains(req) {
        assert(s.list_ok(req));
    }
    release_all_effect(f, list, id);
    if list.contains(id) {
        let i = choose|i: int| 0 <= i < list.len() && list[i] == id;
        assert(s.live(s.owned[req][i]));
    }
    release_all_keeps_absent_list(f, list, req);
}

proof fn release_all_keeps_absent_list(s: PoolState, ids: Seq<u32>, req: u64)
    requires
        !s.owned.dom().contains(req),
    ensures
        !s.release_all(ids).owned.dom().contains(req),
    decreases ids.len(),
{
    if ids.len() > 0 {
        release_all_keeps_absent_list(s, ids.drop_last(), req);
    }
}

/// Tokens of different ranks, and tokens with different counters, differ.
pub proof fn tokens_are_unique(rank_a: u32, counter_a: u64, rank_b: u32, counter_b: u64)
    requires
        rank_a < 0x1_0000,
        rank_b < 0x1_0000,
        counter_a < 0x1_0000_0000_0000,
        counter_b < 0x1_0000_0000_0000,
        state::token_of(rank_a, counter_a) == state::token_of(rank_b, counter_b),
    ensures
        rank_a == rank_b,
        counter_a == counter_b,
{
    let a = rank_a as u64;
    let b = rank_b as u64;
    assert(a == b && counter_a == counter_b) by (bit_vector)
        requires
            a < 0x1_0000,
            b < 0x1_0000,
            counter_a < 0x1_0000_0000_0000,
            counter_b < 0x1_0000_0000_0000,
            ((a << 48) | counter_a) == ((b << 48) | counter_b),
    ;
}

/// The slots that reservations hold depend on what is recorded under their tokens alone.
pub proof fn held_by_same_entries(
    a: Map<u64, (u64, u32)>,
    b: Map<u64, (u64, u32)>,
    tokens: Seq<u64>,
)
    requires
        forall|i: int| 0 <= i < tokens.len() ==> a[#[trigger] tokens[i]] == b[tokens[i]],
    ensures
        state::slots_held(a, tokens) == state::slots_held(b, tokens),
    decreases tokens.len(),
{
    if tokens.len() > 0 {
        let front = tokens.drop_last();
        assert forall|i: int| 0 <= i < front.len() implies a[#[trigger] front[i]] == b[front[i]] by {
            assert(front[i] == tokens[i]);
        }
        held_by_same_entries(a, b, front);
        assert(a[tokens[tokens.len() - 1]] == b[tokens[tokens.len() - 1]]);
    }
}

/// What a reservation holds is part of what all reservations hold.
pub proof fn held_without(entries: Map<u64, (u64, u32)>, tokens: Seq<u64>, token: u64)
    requires
        tokens.no_duplicates(),
        tokens.contains(token),
    ensures
        state::slots_held(entries, tokens) == state::slots_held(
            entries,
            lists::without(tokens, token),
        ) + entries[token].1,
    decreases tokens.len(),
{
    let front = tokens.drop_last();
    let last = tokens.last();
    assert(tokens =~= front.push(last));
    lists::without_push(front, last, token);
    if last == token {
        assert(!front.contains(token)) by {
            if front.contains(token) {
                let i = choose|i: int| 0 <= i < front.len() && front[i] == token;
                assert(tokens[i] == tokens[tokens.len() - 1]);
            }
        }
        lists::without_absent(front, token);
    } else {
        assert(front.contains(token)) by {
            let i = choose|i: int| 0 <= i < tokens.len() && tokens[i] == token;
            assert(front[i] == token);
        }
        held_without(entries, front, token);
        assert(lists::without(front, token).push(last).drop_last() =~= lists::without(
            front,
            token,
        ));
    }
}

/// The first reservation that holds a slot is one of the reservations and holds a slot; there is
/// none if and only if reservations hold nothing.
pub proof fn first_holding_holds(
    entries: Map<u64, (u64, u32)>,
    tokens: Seq<u64>,
    req: Option<u64>,
)
    ensures
        match state::first_holding(entries, tokens, req) {
            Some(token) => {
                &&& tokens.contains(token)
                &&& entries[token].1 > 0
                &&& req matches Some(r) ==> entries[token].0 == r
            },
            None => req is None ==> state::slots_held(entries, tokens) == 0,
        },
    decreases tokens.len(),
{
    if tokens.len() > 0 {
        let front = tokens.drop_last();
        first_holding_holds(entries, front, req);
        match state::first_holding(entries, front, req) {
            Some(token) => {
                let i = choose|i: int| 0 <= i < front.len() && front[i] == token;
                assert(tokens[i] == token);
            },
            None => {
                assert(tokens[tokens.len() - 1] == tokens.last());
            },
        }
    }
}

/// The invariant does not depend on which reservations there are, as long as what they hold is
/// free.
pub proof fn reservations_keep_inv(s: PoolState, t: PoolState)
    requires
        s.inv(),
        t == (PoolState {
            reservations: t.reservations,
            order: t.order,
            next_reservation: t.next_reservation,
            ..s
        }),
        t.tokens_ok(),
        t.held() <= t.free.len(),
    ensures
        t.inv(),
{
    assert forall|o: u32| #[trigger] t.live(o) == s.live(o) by {}
    slots_unchanged(s, t);
    assert forall|r: u64|
        #![trigger t.owned.dom().contains(r)]
        t.owned.dom().contains(r) && r != SHARED_SENTINEL implies t.list_ok(r) by {
        assert(s.owned.dom().contains(r));
        assert(s.list_ok(r));
        assert forall|i: int| 0 <= i < t.owned[r].len() implies {
            &&& t.live(#[trigger] t.owned[r][i])
            &&& t.metas[t.owned[r][i]].req_id == Some(r)
        } by {
            assert(s.live(s.owned[r][i]));
        }
    }
}

/// Giving up a reservation keeps the invariant and sets free exactly what the reservation still
/// held.
pub proof fn unreserve_keeps_inv(s: PoolState, token: u64)
    requires
        s.inv(),
    ensures
        s.unreserve(token).inv(),
        s.unreserve(token).held() == s.held() - (if s.reservations.dom().contains(token) {
            s.reservations[token].1 as int
        } else {
            0
        }),
{
    let t = s.unreserve(token);
    let rest = lists::without(s.order, token);
    lists::without_membership(s.order, token);
    assert forall|x: u64| #[trigger] t.reservations.dom().contains(x) <==> t.order.contains(x) by {
        assert(s.reservations.dom().contains(x) <==> s.order.contains(x));
    }
    assert forall|i: int| 0 <= i < rest.len() implies t.reservations[#[trigger] rest[i]]
        == s.reservations[rest[i]] by {
        assert(rest.contains(rest[i]));
    }
    held_by_same_entries(t.reservations, s.reservations, rest);
    assert(s.reservations.dom().contains(token) <==> s.order.contains(token));
    if s.order.contains(token) {
        held_without(s.reservations, s.order, token);
    } else {
        lists::without_absent(s.order, token);
    }
    reservations_keep_inv(s, t);
}

/// Using up a slot of a reservation keeps the invariant. If the reservation still held a slot,
/// reservations hold one slot less.
pub proof fn consume_keeps_inv(s: PoolState, token: u64)
    requires
        s.inv(),
    ensures
        s.consume(token).inv(),
        s.consume(token).held() == s.held() - (if s.reservations.dom().contains(token)
            && s.reservations[token].1 > 0 {
            1int
        } else {
            0
        }),
{
    if s.reservations.dom().contains(token) {
        unreserve_keeps_inv(s, token);
        if s.reservations[token].1 > 1 {
            let t = s.consume(token);
            assert(s.order.contains(token));
            assert forall|x: u64| #[trigger]
                t.reservations.dom().contains(x) <==> t.order.contains(x) by {
                assert(s.reservations.dom().contains(x) <==> s.order.contains(x));
            }
            held_without(s.reservations, s.order, token);
            held_without(t.reservations, t.order, token);
            let rest = lists::without(s.order, token);
            lists::without_membership(s.order, token);
            assert forall|i: int| 0 <= i < rest.len() implies t.reservations[#[trigger] rest[i]]
                == s.reservations[rest[i]] by {
                assert(rest.contains(rest[i]));
            }
            held_by_same_entries(t.reservations, s.reservations, rest);
            reservations_keep_inv(s, t);
        }
    }
}

/// Recording a reservation of slots that no other reservation holds keeps the invariant, and
/// reservations hold these slots from then on.
pub proof fn reserve_keeps_inv(s: PoolState, rank: u32, req: u64, count: u32)
    requires
        s.inv(),
        s.spare() >= count,
    ensures
        s.reserve(rank, req, count).inv(),
        s.reserve(rank, req, count).held() >= count,
        !s.reservations.dom().contains(state::token_of(rank, s.next_reservation)) ==> s.reserve(
            rank,
            req,
            count,
        ).held() == s.held() + count,
{
    let token = state::token_of(rank, s.next_reservation);
    let u = s.unreserve(token);
    let t = s.reserve(rank, req, count);
    unreserve_keeps_inv(s, token);
    lists::without_membership(s.order, token);
    reserved_slots_add_up(s, rank, req, count);
    assert forall|x: u64| #[trigger] t.reservations.dom().contains(x) <==> t.order.contains(x) by {
        assert(s.reservations.dom().contains(x) <==> s.order.contains(x));
        assert(u.reservations.dom().contains(x) <==> u.order.contains(x));
        assert(t.order[t.order.len() - 1] == token);
        if u.order.contains(x) {
            let i = choose|i: int| 0 <= i < u.order.len() && u.order[i] == x;
            assert(t.order[i] == x);
        }
        if t.order.contains(x) && x != token {
            let i = choose|i: int| 0 <= i < t.order.len() && t.order[i] == x;
            assert(u.order[i] == x);
        }
    }
    reservations_keep_inv(s, t);
}

/// A reservation that is recorded under a token that was in use takes its place.
pub proof fn reserved_slots_add_up(s: PoolState, rank: u32, req: u64, count: u32)
    requires
        s.inv(),
        s.spare() >= count,
    ensures
        s.reserve(rank, req, count).held() == s.unreserve(
            state::token_of(rank, s.next_reservation),
        ).held() + count,
{
    let token = state::token_of(rank, s.next_reservation);
    let u = s.unreserve(token);
    unreserve_keeps_inv(s, token);
    let t = s.reserve(rank, req, count);
    lists::without_membership(s.order, token);
    assert(t.order.drop_last() =~= u.order);
    assert forall|i: int| 0 <= i < u.order.len() implies t.reservations[#[trigger] u.order[i]]
        == u.reservations[u.order[i]] by {
        assert(u.order.contains(u.order[i]));
    }
    held_by_same_entries(t.reservations, u.reservations, u.order);
}

/// A granted reservation of `count` slots is recorded under its token, holds that many free slots
/// besides those of the other reservations, and leaves no trace but the evictions once it is given
/// up.
pub proof fn reservation_round_trip(s: PoolState, rank: u32, req: u64, count: u32)
    requires
        s.inv(),
        s.with_capacity(count).spare() >= count,
        !s.reservations.dom().contains(state::token_of(rank, s.next_reservation)),
    ensures
        ({
            let token = state::token_of(rank, s.next_reservation);
            let t = s.with_capacity(count).reserve(rank, req, count);
            &&& t.inv()
            &&& t.reservations.dom().contains(token)
            &&& t.reservations[token] == (req, count)
            &&& t.held() == s.held() + count
            &&& t.free.len() >= t.held()
            &&& t.unreserve(token).reservations == s.reservations
            &&& t.unreserve(token).order == s.order
            &&& t.unreserve(token).held() == s.held()
        }),
{
    let token = state::token_of(rank, s.next_reservation);
    let m = s.with_capacity(count);
    let t = m.reserve(rank, req, count);
    with_capacity_keeps_reservations(s, count);
    with_capacity_keeps_inv(s, count);
    reserve_keeps_inv(m, rank, req, count);
    unreserve_keeps_inv(t, token);
    assert(!s.order.contains(token));
    lists::without_absent(s.order, token);
    lists::without_push(s.order, token, token);
    assert(t.unreserve(token).reservations =~= s.reservations);
}

/// Making capacity for a reservation keeps the invariant.
pub proof fn with_capacity_keeps_inv(s: PoolState, count: u32)
    requires
        s.inv(),
    ensures
        s.with_capacity(count).inv(),
{
    if s.spare() < count {
        evict_until_keeps_inv(s, count, (count - s.spare()) as nat);
    }
}

/// Making capacity for a reservation leaves the other reservations alone.
pub proof fn with_capacity_keeps_reservations(s: PoolState, count: u32)
    ensures
        s.with_capacity(count).reservations == s.reservations,
        s.with_capacity(count).order == s.order,
        s.with_capacity(count).next_reservation == s.next_reservation,
{
    if s.spare() < count {
        evict_until_keeps_reservations(s, count, (count - s.spare()) as nat);
    }
}

proof fn evict_until_keeps_reservations(s: PoolState, count: u32, n: nat)
    ensures
        s.evict_until(count, n).reservations == s.reservations,
        s.evict_until(count, n).order == s.order,
        s.evict_until(count, n).next_reservation == s.next_reservation,
    decreases n,
{
    if n > 0 && s.evict().spare() < count {
        evict_until_keeps_reservations(s.evict(), count, (n - 1) as nat);
    }
}

/// Evicting has done what it can: the spare slots suffice, no block may be evicted, or every
/// eviction gave one.
proof fn evict_until_is_thorough(s: PoolState, count: u32, n: nat)
    requires
        s.inv(),
    ensures
        ({
            let t = s.evict_until(count, n);
            t.spare() >= count || t.victim() is None || t.spare() == s.spare() + n
        }),
    decreases n,
{
    if n > 0 {
        evict_keeps_inv(s);
        if s.evict().spare() < count {
            evict_until_is_thorough(s.evict(), count, (n - 1) as nat);
            if s.victim() is None {
                evicting_nothing(s, count, (n - 1) as nat);
            }
        }
    }
}

proof fn evicting_nothing(s: PoolState, count: u32, n: nat)
    requires
        s.victim() is None,
    ensures
        s.evict_until(count, n) == s,
    decreases n,
{
    if n > 0 {
        evicting_nothing(s, count, (n - 1) as nat);
    }
}

/// Making room before an allocation, or capacity before a reservation, changes nothing about what
/// they do.
pub proof fn making_room_first_changes_nothing(
    s: PoolState,
    req: u64,
    range: TokenRange,
    dtype: CkvDtype,
    count: u32,
)
    requires
        s.inv(),
    ensures
        s.with_room().with_room() == s.with_room(),
        s.with_room().has_room() == s.has_room(),
        s.with_room().next_block() == s.next_block(),
        s.with_room().allocate(req, range, dtype) == s.allocate(req, range, dtype),
        s.with_capacity(count).with_capacity(count) == s.with_capacity(count),
{
    evict_keeps_inv(s);
    with_capacity_keeps_inv(s, count);
    let t = s.with_capacity(count);
    if s.spare() < count {
        evict_until_is_thorough(s, count, (count - s.spare()) as nat);
        if t.spare() < count {
            evicting_nothing(t, count, (count - t.spare()) as nat);
        }
    }
}

/// Reserved slots stay reserved: an allocation changes no reservation, and leaves at least as many
/// slots free as reservations hold.
pub proof fn allocation_spares_reserved_slots(
    s: PoolState,
    req: u64,
    range: TokenRange,
    dtype: CkvDtype,
)
    requires
        s.inv(),
        s.has_room(),
    ensures
        s.allocate(req, range, dtype).reservations == s.reservations,
        s.allocate(req, range, dtype).held() == s.held(),
        s.allocate(req, range, dtype).free.len() >= s.held(),
{
    allocate_keeps_inv(s, req, range, dtype);
}

/// Slots cannot be reserved twice: where reservations hold every slot of the pool, no further one
/// is granted and no other allocation succeeds.
pub proof fn full_reservations_refuse_all_others(s: PoolState, count: u32)
    requires
        s.inv(),
        s.held() == s.total,
        count > 0,
    ensures
        s.with_capacity(count).spare() < count,
        !s.has_room(),
{
    let m = s.with_capacity(count);
    with_capacity_keeps_inv(s, count);
    with_capacity_keeps_reservations(s, count);
    with_capacity_keeps_total(s, count);
    used_counts_live_blocks(m);
    evict_keeps_inv(s);
    used_counts_live_blocks(s.evict());
}

/// A block that arrives while reservations hold a slot uses up one slot, that of its own request's
/// oldest reservation if there is one, and finds room without an eviction.
pub proof fn arriving_block_uses_its_reservation(s: PoolState, req: u64)
    requires
        s.inv(),
        s.held() > 0,
    ensures
        ({
            let t = s.claimed(req);
            &&& s.claim(req) matches Some(token) && s.reservations.dom().contains(token)
                && s.reservations[token].1 > 0
            &&& t == s.consume(s.claim(req)->0)
            &&& t.inv()
            &&& t.held() == s.held() - 1
            &&& t.spare() > 0
            &&& t.has_room()
            &&& t.with_room() == t
            &&& t.next_block() == s.free.last()
        }),
        forall|token: u64|
            s.reservations.dom().contains(token) && #[trigger] s.reservations[token].0 == req
                && s.reservations[token].1 > 0 ==> s.reservations[s.claim(req)->0].0 == req,
{
    first_holding_holds(s.reservations, s.order, Some(req));
    first_holding_holds(s.reservations, s.order, None);
    let token = s.claim(req)->0;
    assert(s.reservations.dom().contains(token) <==> s.order.contains(token));
    consume_keeps_inv(s, token);
    assert forall|other: u64|
        s.reservations.dom().contains(other) && #[trigger] s.reservations[other].0 == req
            && s.reservations[other].1 > 0 implies s.reservations[token].0 == req by {
        assert(s.order.contains(other));
        own_reservation_is_found(s.reservations, s.order, req, other);
    }
}

proof fn own_reservation_is_found(
    entries: Map<u64, (u64, u32)>,
    tokens: Seq<u64>,
    req: u64,
    other: u64,
)
    requires
        tokens.contains(other),
        entries[other].0 == req,
        entries[other].1 > 0,
    ensures
        state::first_holding(entries, tokens, Some(req)) is Some,
    decreases tokens.len(),
{
    let front = tokens.drop_last();
    if front.contains(other) {
        own_reservation_is_found(entries, front, req, other);
    } else {
        let i = choose|i: int| 0 <= i < tokens.len() && tokens[i] == other;
        if i < front.len() {
            assert(front[i] == other);
        }
        assert(tokens.last() == other);
    }
}

/// Making a slot available to an arriving block keeps the invariant and touches nothing but the
/// reservations. Where a slot is free, none is evicted.
pub proof fn claimed_keeps_inv(s: PoolState, req: u64)
    requires
        s.inv(),
    ensures
        s.claimed(req).inv(),
        s.claimed(req) == (PoolState {
            reservations: s.claimed(req).reservations,
            order: s.claimed(req).order,
            ..s
        }),
        s.free.len() > 0 ==> s.claimed(req).spare() > 0,
        s.claimed(req).held() == (if s.held() > 0 {
            s.held() - 1
        } else {
            0
        }),
        !s.claimed(req).has_room() ==> s.claimed(req) == s,
{
    if s.held() > 0 {
        arriving_block_uses_its_reservation(s, req);
    } else {
        first_holding_holds(s.reservations, s.order, Some(req));
        first_holding_holds(s.reservations, s.order, None);
        if let Some(token) = s.claim(req) {
            held_without(s.reservations, s.order, token);
        }
    }
}

/// A reservation of `n` slots ends with the `n`th slot that is consumed.
pub proof fn consuming_every_slot_ends_the_reservation(s: PoolState, token: u64, n: nat)
    requires
        s.reservations.dom().contains(token),
        s.reservations[token].1 == n,
        n > 0,
    ensures
        consumed(s, token, n).reservations == s.reservations.remove(token),
        n > 1 ==> consumed(s, token, (n - 1) as nat).reservations.dom().contains(token),
    decreases n,
{
    let t = s.consume(token);
    reveal_with_fuel(consumed, 2);
    if n > 1 {
        consuming_every_slot_ends_the_reservation(t, token, (n - 1) as nat);
        assert(t.reservations.remove(token) =~= s.reservations.remove(token));
    }
}

/// The state after `n` slots of a reservation were consumed.
pub open spec fn consumed(s: PoolState, token: u64, n: nat) -> PoolState
    decreases n,
{
    if n == 0 {
        s
    } else {
        consumed(s.consume(token), token, (n - 1) as nat)
    }
}

} // verus!
