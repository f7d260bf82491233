//! Bookkeeping of a fixed pool of blocks: who holds which block, which blocks are free, which
//! block is evicted next, and which capacity is reserved.
//!
//! [`state::PoolState`] is the mathematical state of a pool. Each operation of [`BlockPool`] is
//! one of the state transformations defined on it, [`laws`] states what they keep, and
//! [`behaviour`] what they do to each block.
//!
//! Eviction policy, most eligible first: blocks without references, then blocks with one
//! reference that are not in the segment index, then blocks with one reference that are. Within
//! a tier the block that was touched longest ago goes first. A block with more than one
//! reference is never evicted.
//!
//! A block occupies a slot. The slot of a block that was freed is handed out under the block's
//! number again; the slot of a block that was evicted gets another number, so that the request
//! that lost the block finds it absent instead of somebody else's.

use dashmap::DashMap;
use vstd::prelude::*;

use crate::block::{BlockId, BlockMeta, TokenRange, SHARED_SENTINEL};
use crate::config::CkvDtype;
use crate::error::{Result, TesseraError};
use crate::lists;
use crate::shared_map;

pub mod behaviour;
pub mod laws;
pub mod state;

pub use state::{EvictionTier, PoolState};

verus! {

/// A pool of blocks.
#[derive(Debug)]
pub struct BlockPool {
    /// Metadata of the block in each slot, `None` while the slot is free.
    slots: Vec<Option<BlockMeta>>,
    /// Numbers of the blocks that the free slots will hold; the last one is handed out next.
    free_list: Vec<u32>,
    /// Content hash to the block that was sealed with it.
    content_index: DashMap<u64, u32>,
    /// Blocks allocated for each request.
    req_blocks: DashMap<u64, Vec<u32>>,
    /// Epoch of the next access.
    next_touch_epoch: u64,
    /// Reservation token to request and number of slots that the reservation still holds.
    reservations: DashMap<u64, (u64, u32)>,
    /// Tokens of the reservations, oldest first.
    reservation_order: Vec<u64>,
    /// Number of free slots that reservations hold.
    held_slots: u32,
    /// Counter of the next reservation token.
    next_reservation_id: u64,
    /// Number of slots in the pool.
    total_blocks: u32,
}

/// The metadata held in `slots`.
pub closed spec fn metas_in(slots: Seq<Option<BlockMeta>>, total: u32) -> Map<u32, BlockMeta> {
    Map::new(
        |id: u32|
            total > 0 && slots[state::slot_in(id, total)] is Some && slots[state::slot_in(
                id,
                total,
            )]->0.block_id.0 == id,
        |id: u32| slots[state::slot_in(id, total)]->0,
    )
}

impl View for BlockPool {
    type V = PoolState;

    closed spec fn view(&self) -> PoolState {
        PoolState {
            total: self.total_blocks,
            metas: metas_in(self.slots@, self.total_blocks),
            free: self.free_list@,
            owned: shared_map::blocks_entries(self.req_blocks),
            index: shared_map::number_entries(self.content_index),
            epoch: self.next_touch_epoch,
            reservations: shared_map::pair_entries(self.reservations),
            order: self.reservation_order@,
            next_reservation: self.next_reservation_id,
        }
    }
}

/// `list` without the occurrences of `id`.
fn list_without(list: &Vec<u32>, id: u32) -> (out: Vec<u32>)
    ensures
        out@ == lists::without(list@, id),
{
    let mut out: Vec<u32> = Vec::new();
    let mut i: usize = 0;
    proof {
        reveal(Seq::filter);
        assert(list@.take(0) =~= Seq::<u32>::empty());
    }
    while i < list.len()
        invariant
            i <= list@.len(),
            out@ == lists::without(list@.take(i as int), id),
        decreases list.len() - i,
    {
        let x: u32 = list[i];
        proof {
            lists::without_push(list@.take(i as int), x, id);
            assert(list@.take(i + 1) =~= list@.take(i as int).push(x));
        }
        if x != id {
            out.push(x);
        }
        i += 1;
    }
    proof {
        assert(list@.take(list@.len() as int) =~= list@);
    }
    out
}

/// `list` without the occurrences of `token`.
fn tokens_without(list: &Vec<u64>, token: u64) -> (out: Vec<u64>)
    ensures
        out@ == lists::without(list@, token),
{
    let mut out: Vec<u64> = Vec::new();
    let mut i: usize = 0;
    proof {
        lists::without_of_empty::<u64>(token);
        assert(list@.take(0) =~= Seq::<u64>::empty());
    }
    while i < list.len()
        invariant
            i <= list@.len(),
            out@ == lists::without(list@.take(i as int), token),
        decreases list.len() - i,
    {
        let x: u64 = list[i];
        proof {
            lists::without_push(list@.take(i as int), x, token);
            assert(list@.take(i + 1) =~= list@.take(i as int).push(x));
        }
        if x != token {
            out.push(x);
        }
        i += 1;
    }
    proof {
        assert(list@.take(list@.len() as int) =~= list@);
    }
    out
}

impl BlockPool {
    /// Whether the pool is in a consistent state.
    pub closed spec fn wf(self) -> bool {
        &&& self.slots_ok()
        &&& self.held_slots == self@.held()
        &&& self@.inv()
    }

    /// Whether there is a place for every slot, and every block lies in its own slot.
    closed spec fn slots_ok(self) -> bool {
        &&& self.slots@.len() == self.total_blocks
        &&& forall|k: int|
            0 <= k < self.slots@.len() ==> (#[trigger] self.slots@[k] matches Some(meta)
                ==> state::slot_in(meta.block_id.0, self.total_blocks) == k)
    }

    /// A consistent pool satisfies the invariant of its state.
    pub proof fn wf_implies_inv(&self)
        requires
            self.wf(),
        ensures
            self@.inv(),
    {
    }

    /// Construct a pool of `total` free blocks.
    pub fn new(total: u32) -> (pool: BlockPool)
        ensures
            pool.wf(),
            pool@ == PoolState::empty(total),
    {
        let mut slots: Vec<Option<BlockMeta>> = Vec::with_capacity(total as usize);
        let mut free_list: Vec<u32> = Vec::with_capacity(total as usize);
        let mut i: u32 = 0;
        while i < total
            invariant
                i <= total,
                slots@.len() == i,
                forall|j: int| 0 <= j < i ==> slots@[j] is None,
                free_list@ == Seq::new(i as nat, |j: int| j as u32),
            decreases total - i,
        {
            slots.push(None);
            free_list.push(i);
            i += 1;
            assert(free_list@ =~= Seq::new(i as nat, |j: int| j as u32));
        }
        let pool = BlockPool {
            slots,
            free_list,
            content_index: shared_map::new_number(),
            req_blocks: shared_map::new_blocks(),
            next_touch_epoch: 0,
            reservations: shared_map::new_pair(),
            reservation_order: Vec::new(),
            held_slots: 0,
            next_reservation_id: 1,
            total_blocks: total,
        };
        proof {
            assert(pool@ =~= PoolState::empty(total));
            laws::empty_keeps_inv(total);
        }
        pool
    }

    /// Number of blocks in the pool.
    pub fn total(&self) -> (n: u32)
        ensures
            n == self@.total,
    {
        self.total_blocks
    }

    /// Number of free blocks.
    pub fn free_count(&self) -> (n: u32)
        requires
            self.wf(),
        ensures
            n == self@.free.len(),
    {
        proof {
            laws::used_counts_live_blocks(self@);
        }
        self.free_list.len() as u32
    }

    /// Number of free blocks that no reservation holds.
    pub fn spare_count(&self) -> (n: u32)
        requires
            self.wf(),
        ensures
            n == self@.spare(),
    {
        self.free_count() - self.held_slots
    }

    /// Number of allocated blocks.
    pub fn used(&self) -> (n: u32)
        requires
            self.wf(),
        ensures
            n == self@.used(),
    {
        proof {
            laws::used_counts_live_blocks(self@);
        }
        self.total_blocks - self.free_list.len() as u32
    }

    /// Slot of block `id`.
    pub fn slot(&self, id: u32) -> (k: u32)
        requires
            self@.total > 0,
        ensures
            k == self@.slot(id),
            k < self@.total,
    {
        id % self.total_blocks
    }

    /// Metadata of block `id`, if it is allocated.
    pub fn meta(&self, id: u32) -> (m: Option<BlockMeta>)
        requires
            self.wf(),
        ensures
            m is Some <==> self@.live(id),
            m matches Some(meta) ==> meta == self@.metas[id],
    {
        if self.total_blocks == 0 {
            return None;
        }
        match self.slots[self.slot(id) as usize] {
            Some(meta) => {
                if meta.block_id.0 == id {
                    Some(meta)
                } else {
                    None
                }
            },
            None => None,
        }
    }

    /// Put block `meta.block_id` into its slot, which holds no other block.
    fn set_meta(&mut self, meta: BlockMeta)
        requires
            old(self).slots_ok(),
            old(self)@.total > 0,
            forall|other: u32| #[trigger]
                old(self)@.live(other) && other != meta.block_id.0 ==> old(self)@.slot(other)
                    != old(self)@.slot(meta.block_id.0),
        ensures
            final(self).slots_ok(),
            final(self)@ == (PoolState {
                metas: old(self)@.metas.insert(meta.block_id.0, meta),
                ..old(self)@
            }),
            final(self).free_list == old(self).free_list,
            final(self).content_index == old(self).content_index,
            final(self).req_blocks == old(self).req_blocks,
            final(self).held_slots == old(self).held_slots,
    {
        let k: u32 = self.slot(meta.block_id.0);
        self.slots.set(k as usize, Some(meta));
        proof {
            let before = old(self)@;
            let after = self@;
            assert forall|o: u32| after.live(o) == (before.live(o) || o == meta.block_id.0) by {
                assert(0 <= state::slot_in(o, before.total) < before.total) by {
                    state::renewed_keeps_slot(o, before.total);
                }
                if before.live(o) && o != meta.block_id.0 {
                    assert(before.slot(o) != k);
                }
            }
            assert forall|o: u32| #[trigger] after.live(o) && o != meta.block_id.0 implies after.metas[o]
                == before.metas[o] by {
                assert(before.live(o));
                assert(before.slot(o) != k);
            }
            state::renewed_keeps_slot(meta.block_id.0, before.total);
            assert(after.live(meta.block_id.0) && after.metas[meta.block_id.0] == meta);
            assert forall|o: u32| #[trigger] after.metas.dom().contains(o) == before.metas.insert(
                meta.block_id.0,
                meta,
            ).dom().contains(o) by {
                assert(after.live(o) == (before.live(o) || o == meta.block_id.0));
            }
            assert(after.metas =~= before.metas.insert(meta.block_id.0, meta));
            assert(after =~= (PoolState {
                metas: before.metas.insert(meta.block_id.0, meta),
                ..before
            }));
        }
    }

    /// Record an access to block `id`. Returns whether it is allocated.
    pub fn touch(&mut self, id: u32) -> (r: bool)
        requires
            old(self).wf(),
        ensures
            final(self).wf(),
            final(self)@ == old(self)@.touch(id),
            r == old(self)@.live(id),
    {
        match self.meta(id) {
            None => false,
            Some(meta) => {
                let mut m = meta;
                m.last_touched = self.next_touch_epoch;
                self.set_meta(m);
                self.next_touch_epoch = self.next_touch_epoch.wrapping_add(1);
                proof {
                    assert(self@ =~= old(self)@.touch(id));
                    laws::touch_keeps_inv(old(self)@, id);
                }
                true
            },
        }
    }

    /// Add a reference to block `id` and return the new count.
    pub fn retain(&mut self, id: u32) -> (r: Result<u32>)
        requires
            old(self).wf(),
            old(self)@.live(id) ==> old(self)@.metas[id].ref_count < u32::MAX,
        ensures
            final(self).wf(),
            match r {
                Ok(n) => {
                    &&& old(self)@.live(id)
                    &&& n == old(self)@.metas[id].ref_count + 1
                    &&& final(self)@ == old(self)@.retain(id)
                },
                Err(e) => {
                    &&& !old(self)@.live(id)
                    &&& e == TesseraError::UnknownBlock(id)
                    &&& final(self)@ == old(self)@
                },
            },
    {
        match self.meta(id) {
            None => Err(TesseraError::UnknownBlock(id)),
            Some(meta) => {
                let mut m = meta;
                m.ref_count = m.ref_count + 1;
                self.set_meta(m);
                proof {
                    assert(self@ =~= old(self)@.retain(id));
                    laws::with_refs_keeps_inv(old(self)@, id, m.ref_count);
                }
                Ok(m.ref_count)
            },
        }
    }

    /// Free the slot of live block `id`, whatever its reference count. The block leaves the list
    /// of its request, and the content index if it is indexed under its own hash.
    pub fn reclaim(&mut self, id: u32)
        requires
            old(self).wf(),
            old(self)@.live(id),
        ensures
            final(self).wf(),
            final(self)@ == old(self)@.reclaim(id),
    {
        self.reclaim_as(id, id);
    }

    /// Free the slot of live block `id`, which is to be handed out under the number `next`.
    fn reclaim_as(&mut self, id: u32, next: u32)
        requires
            old(self).wf(),
            old(self)@.live(id),
            old(self)@.slot(next) == old(self)@.slot(id),
        ensures
            final(self).wf(),
            final(self)@ == old(self)@.reclaim_as(id, next),
    {
        let k: u32 = self.slot(id);
        let taken = self.slots[k as usize];
        self.slots.set(k as usize, None);
        proof {
            assert forall|o: u32| #[trigger] self@.live(o) == (old(self)@.live(o) && o != id) by {
                state::renewed_keeps_slot(o, old(self)@.total);
                if old(self)@.live(o) && o != id {
                    assert(old(self)@.slot(o) != old(self)@.slot(id));
                }
            }
            assert(self@.metas =~= old(self)@.metas.remove(id)) by {
                assert forall|o: u32| #[trigger] self@.live(o) implies self@.metas[o]
                    == old(self)@.metas[o] by {
                    state::renewed_keeps_slot(o, old(self)@.total);
                    assert(old(self)@.slot(o) != old(self)@.slot(id));
                }
            }
        }
        if let Some(meta) = taken {
            if let Some(req_id) = meta.req_id {
                if req_id != SHARED_SENTINEL {
                    if let Some(list) = shared_map::get_blocks(&self.req_blocks, req_id) {
                        let rest = list_without(&list, id);
                        shared_map::insert_blocks(&mut self.req_blocks, req_id, rest);
                    }
                }
            }
            if meta.content_hash != 0 {
                if let Some(indexed) = shared_map::get_number(
                    &self.content_index,
                    meta.content_hash,
                ) {
                    if indexed == id {
                        let _ = shared_map::remove_number(
                            &mut self.content_index,
                            meta.content_hash,
                        );
                    }
                }
            }
        }
        self.free_list.push(next);
        proof {
            assert(self@ =~= old(self)@.reclaim_as(id, next));
            laws::reclaim_keeps_inv(old(self)@, id, next);
        }
    }

    /// Give up a reference to block `id`; the last one returns it to the free blocks. Nothing
    /// happens if the block is not allocated.
    pub fn release(&mut self, id: u32)
        requires
            old(self).wf(),
        ensures
            final(self).wf(),
            final(self)@ == old(self)@.release(id),
    {
        if let Some(meta) = self.meta(id) {
            if meta.ref_count == 1 {
                self.reclaim(id);
            } else {
                let mut m = meta;
                m.ref_count = m.ref_count - 1;
                self.set_meta(m);
                proof {
                    assert(self@ =~= old(self)@.release(id));
                    laws::release_keeps_inv(old(self)@, id);
                }
            }
        }
    }

    /// Forget the list of `req_id` and give up a reference to each block on it. Returns the number
    /// of blocks freed: those that had no other holder.
    pub fn release_request(&mut self, req_id: u64) -> (n: u32)
        requires
            old(self).wf(),
        ensures
            final(self).wf(),
            final(self)@ == old(self)@.release_request(req_id),
            n == old(self)@.used() - final(self)@.used(),
    {
        let free_before: u32 = self.free_count();
        let ghost before = self@;
        let ghost forgotten = PoolState { owned: before.owned.remove(req_id), ..before };
        let list: Vec<u32> = match shared_map::remove_blocks(&mut self.req_blocks, req_id) {
            Some(list) => list,
            None => Vec::new(),
        };
        proof {
            laws::forget_keeps_inv(before, req_id);
            assert(self@ =~= forgotten);
            assert(list@ =~= before.blocks_of(req_id));
        }
        let mut i: usize = 0;
        while i < list.len()
            invariant
                i <= list@.len(),
                self.wf(),
                self@ == forgotten.release_all(list@.take(i as int)),
                self@.total == before.total,
                self@.free.len() >= before.free.len(),
            decreases list.len() - i,
        {
            proof {
                assert(list@.take(i + 1).drop_last() =~= list@.take(i as int));
            }
            self.release(list[i]);
            i += 1;
        }
        proof {
            assert(list@.take(list@.len() as int) =~= list@);
        }
        self.free_count() - free_before
    }

    /// The block that is evicted next, with its tier; `None` if no block may be evicted.
    pub fn victim(&self) -> (r: Option<(EvictionTier, u32)>)
        requires
            self.wf(),
        ensures
            match r {
                Some((tier, id)) => {
                    &&& self@.victim() == Some(id)
                    &&& self@.live(id)
                    &&& state::tier_of(self@.metas[id]) == Some(tier)
                },
                None => {
                    &&& self@.victim() is None
                    &&& forall|id: u32| !self@.evictable(id)
                },
            },
    {
        let ghost s = self@;
        let mut best: Option<(EvictionTier, u64, u32)> = None;
        let mut i: u32 = 0;
        while i < self.total_blocks
            invariant
                i <= self.total_blocks,
                self.wf(),
                s == self@,
                match best {
                    Some((tier, touched, id)) => {
                        &&& s.slot(id) < i
                        &&& s.evictable(id)
                        &&& state::tier_of(s.metas[id]) == Some(tier)
                        &&& s.metas[id].last_touched == touched
                        &&& forall|other: u32|
                            #![trigger s.evictable(other)]
                            s.slot(other) < i && s.evictable(other) && other != id
                                ==> s.evicts_before(id, other)
                    },
                    None => forall|other: u32|
                        s.slot(other) < i ==> !#[trigger] s.evictable(other),
                },
            decreases self.total_blocks - i,
        {
            proof {
                assert forall|o: u32| #[trigger] s.evictable(o) && s.slot(o) == i implies (
                self.slots@[i as int] matches Some(meta) && meta.block_id.0 == o && meta
                    == s.metas[o]) by {
                    assert(s.live(o));
                }
                if let Some(meta) = self.slots@[i as int] {
                    assert(state::slot_in(meta.block_id.0, s.total) == i);
                    assert(s.live(meta.block_id.0));
                    assert(s.metas[meta.block_id.0] == meta);
                }
            }
            if let Some(meta) = self.slots[i as usize] {
                if let Some(tier) = state::eviction_tier(&meta) {
                    let better: bool = match best {
                        None => true,
                        Some((t, touched, _)) => tier.precedes(t) || (tier == t && meta.last_touched
                            < touched),
                    };
                    if better {
                        best = Some((tier, meta.last_touched, meta.block_id.0));
                    }
                }
            }
            i += 1;
        }
        match best {
            Some((tier, _, id)) => {
                proof {
                    assert forall|other: u32|
                        #![trigger s.evictable(other)]
                        s.evictable(other) && other != id implies s.evicts_before(id, other) by {
                        assert(s.live(other));
                        state::renewed_keeps_slot(other, s.total);
                    }
                    assert(s.is_victim(id));
                    state::victim_is_unique(s, id);
                }
                Some((tier, id))
            },
            None => {
                proof {
                    assert forall|id: u32| !s.evictable(id) by {
                        if s.live(id) {
                            state::renewed_keeps_slot(id, s.total);
                        }
                    }
                }
                None
            },
        }
    }

    /// Evict one block, if one may be evicted. Returns the block and its tier.
    pub fn evict_one(&mut self) -> (r: Option<(EvictionTier, u32)>)
        requires
            old(self).wf(),
        ensures
            final(self).wf(),
            final(self)@ == old(self)@.evict(),
            match r {
                Some((tier, id)) => {
                    &&& old(self)@.victim() == Some(id)
                    &&& state::tier_of(old(self)@.metas[id]) == Some(tier)
                },
                None => old(self)@.victim() is None,
            },
    {
        let candidate = self.victim();
        if let Some((_, id)) = candidate {
            proof {
                state::renewed_keeps_slot(id, self@.total);
            }
            let next: u32 = if id <= u32::MAX - self.total_blocks {
                id + self.total_blocks
            } else {
                self.slot(id)
            };
            self.reclaim_as(id, next);
        }
        candidate
    }

    /// Make room for an allocation: evict one block if no block is free but those that reservations
    /// hold. Returns the evicted block and its tier.
    pub fn make_room(&mut self) -> (r: Option<(EvictionTier, u32)>)
        requires
            old(self).wf(),
        ensures
            final(self).wf(),
            final(self)@ == old(self)@.with_room(),
            match r {
                Some(evicted) => old(self)@.evicted_for_room() == seq![evicted],
                None => old(self)@.evicted_for_room().len() == 0,
            },
    {
        if self.spare_count() == 0 {
            self.evict_one()
        } else {
            None
        }
    }

    /// Make room for a reservation of `count` slots: evict blocks to make up a shortfall of slots
    /// that no other reservation holds. Returns the evicted blocks and their tiers.
    pub fn make_capacity(&mut self, count: u32) -> (evicted: Vec<(EvictionTier, u32)>)
        requires
            old(self).wf(),
        ensures
            final(self).wf(),
            final(self)@ == old(self)@.with_capacity(count),
            evicted@ == old(self)@.evicted_for_capacity(count),
    {
        let mut evicted: Vec<(EvictionTier, u32)> = Vec::new();
        let spare_now: u32 = self.spare_count();
        let ghost before = self@;
        if spare_now < count {
            let needed: u32 = count - spare_now;
            let mut i: u32 = 0;
            let mut done: bool = false;
            while i < needed && !done
                invariant
                    i <= needed,
                    self.wf(),
                    done ==> {
                        &&& before.evict_until(count, needed as nat) == self@
                        &&& before.evicted_until(count, needed as nat) == evicted@
                    },
                    !done ==> {
                        &&& before.evict_until(count, needed as nat) == self@.evict_until(
                            count,
                            (needed - i) as nat,
                        )
                        &&& before.evicted_until(count, needed as nat) == evicted@
                            + self@.evicted_until(count, (needed - i) as nat)
                    },
                decreases needed - i,
            {
                let ghost listed = evicted@;
                let ghost s = self@;
                if let Some(victim) = self.evict_one() {
                    evicted.push(victim);
                }
                proof {
                    assert(evicted@ =~= listed + s.next_eviction());
                }
                if self.spare_count() >= count {
                    done = true;
                }
                i += 1;
                proof {
                    if !done {
                        let rest = self@.evicted_until(count, (needed - i) as nat);
                        assert(listed + (s.next_eviction() + rest) =~= evicted@ + rest);
                    }
                }
            }
        }
        evicted
    }

    /// Hand out a block for `req_id`, evicting one block if none is free but those that
    /// reservations hold.
    pub fn allocate(&mut self, req_id: u64, token_range: TokenRange, ckv_dtype: CkvDtype) -> (r:
        Result<u32>)
        requires
            old(self).wf(),
        ensures
            final(self).wf(),
            match r {
                Ok(id) => {
                    &&& old(self)@.has_room()
                    &&& id == old(self)@.next_block()
                    &&& final(self)@ == old(self)@.allocate(req_id, token_range, ckv_dtype)
                },
                Err(e) => {
                    &&& !old(self)@.has_room()
                    &&& e == (TesseraError::OutOfBlocks {
                        used: old(self)@.used() as u32,
                        total: old(self)@.total,
                    })
                    &&& final(self)@ == old(self)@
                },
            },
    {
        proof {
            laws::evict_keeps_inv(self@);
            laws::used_counts_live_blocks(self@);
        }
        let _ = self.make_room();
        if self.spare_count() == 0 {
            return Err(TesseraError::OutOfBlocks { used: self.used(), total: self.total_blocks });
        }
        let id: u32 = match self.free_list.pop() {
            Some(id) => id,
            None => {
                return Err(
                    TesseraError::OutOfBlocks { used: self.used(), total: self.total_blocks },
                );
            },
        };
        let ghost s = old(self)@.with_room();
        proof {
            assert(s.free[s.free.len() - 1] == id);
            laws::allocate_keeps_inv(old(self)@, req_id, token_range, ckv_dtype);
        }
        let epoch: u64 = self.next_touch_epoch;
        self.next_touch_epoch = epoch.wrapping_add(1);
        let meta = BlockMeta::fresh(BlockId(id), req_id, token_range, ckv_dtype, epoch);
        proof {
            assert forall|other: u32| #[trigger] self@.live(other) && other != id implies self@.slot(
                other,
            ) != self@.slot(id) by {
                assert(s.live(other));
                assert(s.slot(s.free[s.free.len() - 1]) != s.slot(other));
            }
        }
        self.set_meta(meta);
        let mut list: Vec<u32> = match shared_map::remove_blocks(&mut self.req_blocks, req_id) {
            Some(list) => list,
            None => Vec::new(),
        };
        proof {
            assert(list@ =~= s.blocks_of(req_id));
        }
        list.push(id);
        shared_map::insert_blocks(&mut self.req_blocks, req_id, list);
        proof {
            assert(self@ =~= old(self)@.allocate(req_id, token_range, ckv_dtype));
        }
        Ok(id)
    }

    /// Make room for `count` blocks besides those that other reservations hold, evicting what is
    /// missing, and reserve them under the next token of `rank`. If the room cannot be made, the
    /// evictions stay and nothing is reserved.
    pub fn reserve(&mut self, rank: u32, req_id: u64, count: u32) -> (r: Result<u64>)
        requires
            old(self).wf(),
        ensures
            final(self).wf(),
            match r {
                Ok(token) => {
                    &&& old(self)@.with_capacity(count).spare() >= count
                    &&& token == state::token_of(rank, old(self)@.next_reservation)
                    &&& final(self)@ == old(self)@.with_capacity(count).reserve(
                        rank,
                        req_id,
                        count,
                    )
                },
                Err(e) => {
                    &&& old(self)@.with_capacity(count).spare() < count
                    &&& e == (TesseraError::OutOfBlocks {
                        used: old(self)@.with_capacity(count).used() as u32,
                        total: old(self)@.total,
                    })
                    &&& final(self)@ == old(self)@.with_capacity(count)
                },
            },
    {
        proof {
            laws::with_capacity_keeps_total(self@, count);
            laws::with_capacity_keeps_reservations(self@, count);
        }
        let _ = self.make_capacity(count);
        if self.spare_count() < count {
            return Err(TesseraError::OutOfBlocks { used: self.used(), total: self.total_blocks });
        }
        let ghost roomy = self@;
        let counter: u64 = self.next_reservation_id;
        let token: u64 = ((rank as u64) << 48) | counter;
        self.unreserve(token);
        proof {
            laws::unreserve_keeps_inv(roomy, token);
            laws::reserve_keeps_inv(roomy, rank, req_id, count);
            laws::used_counts_live_blocks(self@);
        }
        self.next_reservation_id = counter.wrapping_add(1);
        shared_map::insert_pair(&mut self.reservations, token, (req_id, count));
        self.reservation_order.push(token);
        proof {
            assert(self@ =~= roomy.reserve(rank, req_id, count));
            laws::reserved_slots_add_up(roomy, rank, req_id, count);
        }
        self.held_slots = self.held_slots + count;
        Ok(token)
    }

    /// Give up a reservation, with the slots that it still holds. Nothing happens if there is none
    /// under `token`.
    pub fn unreserve(&mut self, token: u64)
        requires
            old(self).wf(),
        ensures
            final(self).wf(),
            final(self)@ == old(self)@.unreserve(token),
    {
        proof {
            laws::unreserve_keeps_inv(self@, token);
            if !self@.order.contains(token) {
                lists::without_absent(self@.order, token);
            }
        }
        if let Some((_, remaining)) = shared_map::remove_pair(&mut self.reservations, token) {
            let rest = tokens_without(&self.reservation_order, token);
            self.reservation_order = rest;
            self.held_slots = self.held_slots - remaining;
        }
        proof {
            assert(self@ =~= old(self)@.unreserve(token));
        }
    }

    /// Use up one slot of a reservation, which ends with its last slot.
    pub fn consume(&mut self, token: u64)
        requires
            old(self).wf(),
        ensures
            final(self).wf(),
            final(self)@ == old(self)@.consume(token),
    {
        if let Some((req_id, remaining)) = shared_map::get_pair(&self.reservations, token) {
            if remaining <= 1 {
                self.unreserve(token);
            } else {
                proof {
                    laws::consume_keeps_inv(self@, token);
                }
                shared_map::insert_pair(&mut self.reservations, token, (req_id, remaining - 1));
                self.held_slots = self.held_slots - 1;
                proof {
                    assert(self@ =~= old(self)@.consume(token));
                }
            }
        }
    }

    /// The oldest reservation that still holds a slot, among all reservations or among those of
    /// one request.
    fn first_holding(&self, req: Option<u64>) -> (r: Option<u64>)
        requires
            self.wf(),
        ensures
            r == state::first_holding(self@.reservations, self@.order, req),
    {
        let ghost entries = self@.reservations;
        let ghost order = self@.order;
        let mut found: Option<u64> = None;
        let mut i: usize = 0;
        proof {
            assert(order.take(0) =~= Seq::<u64>::empty());
        }
        while i < self.reservation_order.len()
            invariant
                i <= self.reservation_order@.len(),
                self.wf(),
                entries == self@.reservations,
                order == self.reservation_order@,
                found == state::first_holding(entries, order.take(i as int), req),
            decreases self.reservation_order.len() - i,
        {
            let token: u64 = self.reservation_order[i];
            proof {
                assert(order.take(i + 1).drop_last() =~= order.take(i as int));
                assert(order.contains(token));
                assert(entries.dom().contains(token) <==> order.contains(token));
            }
            if found.is_none() {
                if let Some((owner, remaining)) = shared_map::get_pair(
                    &self.reservations,
                    token,
                ) {
                    let own: bool = match req {
                        Some(r) => r == owner,
                        None => true,
                    };
                    if remaining > 0 && own {
                        found = Some(token);
                    }
                }
            }
            i += 1;
        }
        proof {
            assert(order.take(order.len() as int) =~= order);
        }
        found
    }

    /// The reservation that a block arriving for `req` uses: the oldest one of that request that
    /// still holds a slot, otherwise the oldest one of any request.
    pub fn claim(&self, req: u64) -> (r: Option<u64>)
        requires
            self.wf(),
        ensures
            r == self@.claim(req),
    {
        match self.first_holding(Some(req)) {
            Some(token) => Some(token),
            None => self.first_holding(None),
        }
    }

    /// The request and the number of slots of a reservation.
    pub fn reservation(&self, token: u64) -> (r: Option<(u64, u32)>)
        ensures
            r is Some <==> self@.reservations.dom().contains(token),
            r matches Some(entry) ==> entry == self@.reservations[token],
    {
        shared_map::get_pair(&self.reservations, token)
    }

    /// Number of active reservations.
    pub fn reservation_count(&self) -> (n: usize)
        ensures
            n == self@.reservations.dom().len(),
    {
        shared_map::len_pair(&self.reservations)
    }

    /// Blocks listed for `req_id`, in order of allocation.
    pub fn blocks_of(&self, req_id: u64) -> (list: Vec<u32>)
        ensures
            list@ == self@.blocks_of(req_id),
    {
        match shared_map::get_blocks(&self.req_blocks, req_id) {
            Some(list) => list,
            None => Vec::new(),
        }
    }

    /// The block indexed under `hash`.
    pub fn indexed(&self, hash: u64) -> (r: Option<u32>)
        ensures
            r is Some <==> self@.index.dom().contains(hash),
            r matches Some(id) ==> id == self@.index[hash],
    {
        shared_map::get_number(&self.content_index, hash)
    }

    /// Record `hash` as the content hash of block `id`.
    pub fn mark(&mut self, id: u32, hash: u64)
        requires
            old(self).wf(),
            old(self)@.live(id),
        ensures
            final(self).wf(),
            final(self)@ == old(self)@.mark(id, hash),
    {
        if let Some(meta) = self.meta(id) {
            let mut m = meta;
            m.content_hash = hash;
            self.set_meta(m);
        }
        proof {
            assert(self@ =~= old(self)@.mark(id, hash));
            laws::publish_keeps_inv(old(self)@, id, hash);
        }
    }

    /// Record `hash` as the content hash of block `id` and index the block under it.
    pub fn publish(&mut self, id: u32, hash: u64)
        requires
            old(self).wf(),
            old(self)@.live(id),
        ensures
            final(self).wf(),
            final(self)@ == old(self)@.publish(id, hash),
    {
        self.mark(id, hash);
        shared_map::insert_number(&mut self.content_index, hash, id);
        proof {
            assert(self@ =~= old(self)@.publish(id, hash));
            laws::publish_keeps_inv(old(self)@, id, hash);
        }
    }
}

} // verus!
