//! Mathematical state of a pool and the transformations that the pool's operations perform.

use vstd::prelude::*;

use crate::block::{BlockId, BlockMeta, TokenRange, SHARED_SENTINEL};
use crate::config::CkvDtype;
use crate::lists;

verus! {

/// Which eviction tier a block falls into.
#[derive(Debug, Clone, Copy, PartialEq, Eq, Structural)]
pub enum EvictionTier {
    /// No references: orphaned.
    A,
    /// One reference, not indexed: inactive with low reuse value.
    B,
    /// One reference, indexed: inactive, but with reuse value.
    C,
}

impl EvictionTier {
    /// Name of the tier in metric labels.
    pub open spec fn name(self) -> Seq<char> {
        match self {
            EvictionTier::A => "a"@,
            EvictionTier::B => "b"@,
            EvictionTier::C => "c"@,
        }
    }

    /// Position in the eviction order.
    pub open spec fn order(self) -> int {
        match self {
            EvictionTier::A => 0,
            EvictionTier::B => 1,
            EvictionTier::C => 2,
        }
    }

    /// Metric label of the tier.
    pub fn label(self) -> (s: &'static str)
        ensures
            s@ == self.name(),
    {
        match self {
            EvictionTier::A => "a",
            EvictionTier::B => "b",
            EvictionTier::C => "c",
        }
    }

    /// Whether this tier is evicted before `other`.
    pub fn precedes(self, other: EvictionTier) -> (r: bool)
        ensures
            r == (self.order() < other.order()),
    {
        match (self, other) {
            (EvictionTier::A, EvictionTier::B) => true,
            (EvictionTier::A, EvictionTier::C) => true,
            (EvictionTier::B, EvictionTier::C) => true,
            _ => false,
        }
    }
}

/// Tier of a block, or `None` for a shared block, which is never evicted.
pub open spec fn tier_of(meta: BlockMeta) -> Option<EvictionTier> {
    if meta.ref_count == 0 {
        Some(EvictionTier::A)
    } else if meta.ref_count > 1 {
        None
    } else if !meta.indexed {
        Some(EvictionTier::B)
    } else {
        Some(EvictionTier::C)
    }
}

/// Tier of a block, or `None` for a shared block, which is never evicted.
pub fn eviction_tier(meta: &BlockMeta) -> (t: Option<EvictionTier>)
    ensures
        t == tier_of(*meta),
{
    if meta.ref_count == 0 {
        Some(EvictionTier::A)
    } else if meta.ref_count > 1 {
        None
    } else if !meta.indexed {
        Some(EvictionTier::B)
    } else {
        Some(EvictionTier::C)
    }
}

/// The counter value after `n`; the counter wraps around.
pub open spec fn successor(n: u64) -> u64 {
    if n == u64::MAX {
        0
    } else {
        (n + 1) as u64
    }
}

/// Reservation token number `counter` of rank `rank`: the rank in the upper 16 bits, the counter
/// below.
pub open spec fn token_of(rank: u32, counter: u64) -> u64 {
    ((rank as u64) << 48) | counter
}

/// Slot of block `id` in a pool of `total` slots: the place of its bytes in the regions.
pub open spec fn slot_in(id: u32, total: u32) -> int {
    id as int % total as int
}

/// The number under which the slot of block `id` is handed out after the block was evicted. It
/// lies `total` further on, so that the number of the evicted block stands for no block; when the
/// numbers run out they start over.
pub open spec fn renewed(id: u32, total: u32) -> u32 {
    if id + total <= u32::MAX {
        (id + total) as u32
    } else {
        slot_in(id, total) as u32
    }
}

/// The number after eviction stands for the same slot, and differs from the number before it
/// unless the pool is so large that there is no other.
pub proof fn renewed_keeps_slot(id: u32, total: u32)
    requires
        total > 0,
    ensures
        slot_in(renewed(id, total), total) == slot_in(id, total),
        0 <= slot_in(id, total) < total,
        total <= 0x8000_0000 ==> renewed(id, total) != id,
{
    vstd::arithmetic::div_mod::lemma_mod_add_multiples_vanish(id as int, total as int);
    vstd::arithmetic::div_mod::lemma_mod_twice(id as int, total as int);
    vstd::arithmetic::div_mod::lemma_mod_bound(id as int, total as int);
}

/// Number of slots that the reservations under `tokens` still hold.
pub open spec fn slots_held(reservations: Map<u64, (u64, u32)>, tokens: Seq<u64>) -> nat
    decreases tokens.len(),
{
    if tokens.len() == 0 {
        0
    } else {
        slots_held(reservations, tokens.drop_last()) + reservations[tokens.last()].1 as nat
    }
}

/// The first of `tokens` whose reservation still holds a slot, among all reservations or among
/// those of one request.
pub open spec fn first_holding(
    reservations: Map<u64, (u64, u32)>,
    tokens: Seq<u64>,
    req: Option<u64>,
) -> Option<u64>
    decreases tokens.len(),
{
    if tokens.len() == 0 {
        None
    } else {
        match first_holding(reservations, tokens.drop_last(), req) {
            Some(token) => Some(token),
            None => {
                let (owner, remaining) = reservations[tokens.last()];
                if remaining > 0 && (req is Some ==> req == Some(owner)) {
                    Some(tokens.last())
                } else {
                    None
                }
            },
        }
    }
}

/// Mathematical state of a pool.
#[verifier::ext_equal]
pub struct PoolState {
    /// Number of slots in the pool.
    pub total: u32,
    /// Metadata of the live blocks.
    pub metas: Map<u32, BlockMeta>,
    /// Numbers of the blocks that the free slots will hold; the last one is handed out next.
    pub free: Seq<u32>,
    /// Blocks allocated for each request, in order of allocation.
    pub owned: Map<u64, Seq<u32>>,
    /// Content hash to the block that was sealed with it.
    pub index: Map<u64, u32>,
    /// Epoch of the next access.
    pub epoch: u64,
    /// Reservation token to request and number of slots that the reservation still holds.
    pub reservations: Map<u64, (u64, u32)>,
    /// Tokens of the reservations, oldest first.
    pub order: Seq<u64>,
    /// Counter of the next reservation token.
    pub next_reservation: u64,
}

impl PoolState {
    /// State of a new pool: every block is free.
    pub open spec fn empty(total: u32) -> PoolState {
        PoolState {
            total,
            metas: Map::empty(),
            free: Seq::new(total as nat, |i: int| i as u32),
            owned: Map::empty(),
            index: Map::empty(),
            epoch: 0,
            reservations: Map::empty(),
            order: Seq::empty(),
            next_reservation: 1,
        }
    }

    /// Slot of block `id`.
    pub open spec fn slot(self, id: u32) -> int {
        slot_in(id, self.total)
    }

    /// Whether slot `k` holds a live block.
    pub open spec fn occupied(self, k: int) -> bool {
        exists|id: u32| #[trigger] self.live(id) && self.slot(id) == k
    }

    /// Whether slot `k` is free.
    pub open spec fn vacant(self, k: int) -> bool {
        exists|i: int| 0 <= i < self.free.len() && self.slot(#[trigger] self.free[i]) == k
    }

    /// Whether block `id` is allocated.
    pub open spec fn live(self, id: u32) -> bool {
        self.metas.dom().contains(id)
    }

    /// Number of allocated blocks.
    pub open spec fn used(self) -> int {
        self.total - self.free.len()
    }

    /// Number of free slots that reservations hold.
    pub open spec fn held(self) -> nat {
        slots_held(self.reservations, self.order)
    }

    /// Number of free slots that no reservation holds.
    pub open spec fn spare(self) -> int {
        self.free.len() - self.held()
    }

    /// Whether the tokens of the reservations are listed, each once.
    pub open spec fn tokens_ok(self) -> bool {
        &&& self.reservations.dom().finite()
        &&& self.order.no_duplicates()
        &&& forall|token: u64| #[trigger]
            self.reservations.dom().contains(token) <==> self.order.contains(token)
    }

    /// Blocks listed for request `req`.
    pub open spec fn blocks_of(self, req: u64) -> Seq<u32> {
        if self.owned.dom().contains(req) {
            self.owned[req]
        } else {
            Seq::empty()
        }
    }

    /// Whether the list of `req` names distinct live blocks that belong to `req`.
    pub open spec fn list_ok(self, req: u64) -> bool {
        &&& self.owned[req].no_duplicates()
        &&& forall|i: int|
            0 <= i < self.owned[req].len() ==> {
                &&& self.live(#[trigger] self.owned[req][i])
                &&& self.metas[self.owned[req][i]].req_id == Some(req)
            }
    }

    /// Invariant of a pool: a slot is either free, once, or holds one live block with at least
    /// one reference, the list of a request names blocks of that request, and every slot that a
    /// reservation holds is free. The list under [`SHARED_SENTINEL`] is not kept in step with
    /// evictions.
    pub open spec fn inv(self) -> bool {
        &&& self.free.len() > 0 ==> self.total > 0
        &&& forall|i: int, j: int|
            #![trigger self.free[i], self.free[j]]
            0 <= i < j < self.free.len() ==> self.slot(self.free[i]) != self.slot(self.free[j])
        &&& forall|i: int, id: u32|
            #![trigger self.free[i], self.live(id)]
            0 <= i < self.free.len() && self.live(id) ==> self.slot(self.free[i]) != self.slot(id)
        &&& forall|a: u32, b: u32|
            #![trigger self.live(a), self.live(b)]
            self.live(a) && self.live(b) && a != b ==> self.slot(a) != self.slot(b)
        &&& forall|k: int|
            0 <= k < self.total ==> #[trigger] self.occupied(k) || self.vacant(k)
        &&& forall|id: u32| #[trigger]
            self.live(id) ==> {
                &&& self.total > 0
                &&& self.metas[id].block_id.0 == id
                &&& self.metas[id].ref_count >= 1
                &&& self.metas[id].req_id is Some
            }
        &&& forall|req: u64|
            #![trigger self.owned.dom().contains(req)]
            self.owned.dom().contains(req) && req != SHARED_SENTINEL ==> self.list_ok(req)
        &&& self.tokens_ok()
        &&& self.held() <= self.free.len()
    }

    /// Record an access to block `id`.
    pub open spec fn touch(self, id: u32) -> PoolState {
        if self.live(id) {
            PoolState {
                metas: self.metas.insert(
                    id,
                    BlockMeta { last_touched: self.epoch, ..self.metas[id] },
                ),
                epoch: successor(self.epoch),
                ..self
            }
        } else {
            self
        }
    }

    /// Whether `other` differs at most in the times of the last accesses.
    pub open spec fn same_but_touched(self, other: PoolState) -> bool {
        &&& other == (PoolState { metas: other.metas, epoch: other.epoch, ..self })
        &&& other.metas.dom() == self.metas.dom()
        &&& forall|id: u32| #[trigger]
            self.live(id) ==> other.metas[id] == (BlockMeta {
                last_touched: other.metas[id].last_touched,
                ..self.metas[id]
            })
    }

    /// Set the reference count of block `id`.
    pub open spec fn with_refs(self, id: u32, refs: u32) -> PoolState {
        PoolState {
            metas: self.metas.insert(id, BlockMeta { ref_count: refs, ..self.metas[id] }),
            ..self
        }
    }

    /// Add a reference to block `id`.
    pub open spec fn retain(self, id: u32) -> PoolState {
        self.with_refs(id, (self.metas[id].ref_count + 1) as u32)
    }

    /// Free the slot of live block `id`, whatever its reference count. The block leaves the list
    /// of its request, and the content index if it is indexed under its own hash.
    pub open spec fn reclaim(self, id: u32) -> PoolState {
        self.reclaim_as(id, id)
    }

    /// Free the slot of live block `id`, which is to be handed out under the number `next`.
    pub open spec fn reclaim_as(self, id: u32, next: u32) -> PoolState {
        let meta = self.metas[id];
        PoolState {
            metas: self.metas.remove(id),
            free: self.free.push(next),
            owned: match meta.req_id {
                Some(req) => if req != SHARED_SENTINEL && self.owned.dom().contains(req) {
                    self.owned.insert(req, lists::without(self.owned[req], id))
                } else {
                    self.owned
                },
                None => self.owned,
            },
            index: if meta.content_hash != 0 && self.index.dom().contains(meta.content_hash)
                && self.index[meta.content_hash] == id {
                self.index.remove(meta.content_hash)
            } else {
                self.index
            },
            ..self
        }
    }

    /// Give up a reference to block `id`; the last one returns it to the free blocks. Nothing
    /// happens if the block is not live.
    pub open spec fn release(self, id: u32) -> PoolState {
        if !self.live(id) {
            self
        } else if self.metas[id].ref_count == 1 {
            self.reclaim(id)
        } else {
            self.with_refs(id, (self.metas[id].ref_count - 1) as u32)
        }
    }

    /// Give up a reference to each of `ids` in turn.
    pub open spec fn release_all(self, ids: Seq<u32>) -> PoolState
        decreases ids.len(),
    {
        if ids.len() == 0 {
            self
        } else {
            self.release_all(ids.drop_last()).release(ids.last())
        }
    }

    /// Forget the list of `req` and give up a reference to each block on it.
    pub open spec fn release_request(self, req: u64) -> PoolState {
        PoolState { owned: self.owned.remove(req), ..self }.release_all(self.blocks_of(req))
    }

    /// Whether block `id` may be evicted.
    pub open spec fn evictable(self, id: u32) -> bool {
        self.live(id) && tier_of(self.metas[id]) is Some
    }

    /// Whether block `a` is evicted before block `b`: by tier, then by the time of the last
    /// access, then by slot.
    pub open spec fn evicts_before(self, a: u32, b: u32) -> bool {
        let x = self.metas[a];
        let y = self.metas[b];
        let tx = tier_of(x)->0.order();
        let ty = tier_of(y)->0.order();
        tx < ty || (tx == ty && (x.last_touched < y.last_touched || (x.last_touched
            == y.last_touched && self.slot(a) < self.slot(b))))
    }

    /// Whether block `id` is evicted before every other block.
    pub open spec fn is_victim(self, id: u32) -> bool {
        &&& self.evictable(id)
        &&& forall|other: u32|
            #![trigger self.evictable(other)]
            self.evictable(other) && other != id ==> self.evicts_before(id, other)
    }

    /// The block that is evicted next.
    pub open spec fn victim(self) -> Option<u32> {
        if exists|id: u32| self.is_victim(id) {
            Some(choose|id: u32| self.is_victim(id))
        } else {
            None
        }
    }

    /// Evict one block, if one may be evicted. Its slot is handed out under another number, so
    /// that whoever still holds the number of the block finds it absent.
    pub open spec fn evict(self) -> PoolState {
        match self.victim() {
            Some(id) => self.reclaim_as(id, renewed(id, self.total)),
            None => self,
        }
    }

    /// The state in which an allocation looks for a free block: if there is none but those that
    /// reservations hold, one block has been evicted.
    pub open spec fn with_room(self) -> PoolState {
        if self.spare() <= 0 {
            self.evict()
        } else {
            self
        }
    }

    /// Whether an allocation finds a block that no reservation holds.
    pub open spec fn has_room(self) -> bool {
        self.with_room().spare() > 0
    }

    /// The block that the next allocation hands out.
    pub open spec fn next_block(self) -> u32 {
        self.with_room().free.last()
    }

    /// Hand out a block for `req`.
    pub open spec fn allocate(self, req: u64, range: TokenRange, dtype: CkvDtype) -> PoolState {
        let s = self.with_room();
        let id = self.next_block();
        PoolState {
            metas: s.metas.insert(
                id,
                BlockMeta::fresh_spec(BlockId(id), req, range, dtype, s.epoch),
            ),
            free: s.free.drop_last(),
            owned: s.owned.insert(req, s.blocks_of(req).push(id)),
            epoch: successor(s.epoch),
            ..s
        }
    }

    /// Evict blocks until `count` are free that no reservation holds, at most `n` of them.
    pub open spec fn evict_until(self, count: u32, n: nat) -> PoolState
        decreases n,
    {
        if n == 0 {
            self
        } else {
            let s = self.evict();
            if s.spare() >= count {
                s
            } else {
                s.evict_until(count, (n - 1) as nat)
            }
        }
    }

    /// The state in which a reservation of `count` slots is granted or refused: blocks have been
    /// evicted to make up the shortfall.
    pub open spec fn with_capacity(self, count: u32) -> PoolState {
        if self.spare() < count {
            self.evict_until(count, (count - self.spare()) as nat)
        } else {
            self
        }
    }

    /// The block that is evicted next, with its tier, as a list of at most one.
    pub open spec fn next_eviction(self) -> Seq<(EvictionTier, u32)> {
        match self.victim() {
            Some(id) => seq![(tier_of(self.metas[id])->0, id)],
            None => Seq::empty(),
        }
    }

    /// The blocks that [`PoolState::evict_until`] evicts, in order, with their tiers.
    pub open spec fn evicted_until(self, count: u32, n: nat) -> Seq<(EvictionTier, u32)>
        decreases n,
    {
        if n == 0 {
            Seq::empty()
        } else {
            let s = self.evict();
            if s.spare() >= count {
                self.next_eviction()
            } else {
                self.next_eviction() + s.evicted_until(count, (n - 1) as nat)
            }
        }
    }

    /// The blocks that are evicted for an allocation, with their tiers.
    pub open spec fn evicted_for_room(self) -> Seq<(EvictionTier, u32)> {
        if self.spare() <= 0 {
            self.next_eviction()
        } else {
            Seq::empty()
        }
    }

    /// The blocks that are evicted for a reservation of `count` slots, with their tiers.
    pub open spec fn evicted_for_capacity(self, count: u32) -> Seq<(EvictionTier, u32)> {
        if self.spare() < count {
            self.evicted_until(count, (count - self.spare()) as nat)
        } else {
            Seq::empty()
        }
    }

    /// Record a reservation of `count` slots for `req` under the next token of `rank`.
    pub open spec fn reserve(self, rank: u32, req: u64, count: u32) -> PoolState {
        let token = token_of(rank, self.next_reservation);
        PoolState {
            reservations: self.reservations.insert(token, (req, count)),
            order: lists::without(self.order, token).push(token),
            next_reservation: successor(self.next_reservation),
            ..self
        }
    }

    /// Give up a reservation, with the slots that it still holds.
    pub open spec fn unreserve(self, token: u64) -> PoolState {
        PoolState {
            reservations: self.reservations.remove(token),
            order: lists::without(self.order, token),
            ..self
        }
    }

    /// Use up one slot of a reservation, which ends with its last slot. Nothing happens if there
    /// is no such reservation.
    pub open spec fn consume(self, token: u64) -> PoolState {
        if !self.reservations.dom().contains(token) {
            self
        } else {
            let (req, remaining) = self.reservations[token];
            if remaining <= 1 {
                self.unreserve(token)
            } else {
                PoolState {
                    reservations: self.reservations.insert(token, (req, (remaining - 1) as u32)),
                    ..self
                }
            }
        }
    }

    /// The reservation that a block arriving for `req` uses: the oldest one of that request that
    /// still holds a slot, otherwise the oldest one of any request.
    pub open spec fn claim(self, req: u64) -> Option<u64> {
        match first_holding(self.reservations, self.order, Some(req)) {
            Some(token) => Some(token),
            None => first_holding(self.reservations, self.order, None),
        }
    }

    /// The state in which a block arriving for `req` is allocated: one slot of its reservation
    /// has been used up, if there is one.
    pub open spec fn claimed(self, req: u64) -> PoolState {
        match self.claim(req) {
            Some(token) => self.consume(token),
            None => self,
        }
    }

    /// Record `hash` as the content hash of block `id`.
    pub open spec fn mark(self, id: u32, hash: u64) -> PoolState {
        PoolState {
            metas: self.metas.insert(id, BlockMeta { content_hash: hash, ..self.metas[id] }),
            ..self
        }
    }

    /// Record `hash` as the content hash of block `id` and index the block under it.
    pub open spec fn publish(self, id: u32, hash: u64) -> PoolState {
        PoolState { index: self.index.insert(hash, id), ..self }.mark(id, hash)
    }
}

/// At most one block is evicted next.
pub proof fn victim_is_unique(s: PoolState, id: u32)
    requires
        s.inv(),
        s.is_victim(id),
    ensures
        s.victim() == Some(id),
{
    let other = choose|other: u32| s.is_victim(other);
    assert(s.is_victim(other));
    if other != id {
        assert(s.evictable(other) && s.evictable(id));
        assert(s.evicts_before(id, other));
        assert(s.evicts_before(other, id));
    }
}

} // verus!
