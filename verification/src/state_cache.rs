//! Per-request state cache: one fixed-size arena per request.
//!
//! An arena has two parts, the sliding-window entries and the uncompressed tail. Both are
//! reserved for every slot at construction; requests borrow slots and return them.

use dashmap::DashMap;
use vstd::prelude::*;

use crate::config::CompressionScheme;
use crate::device::{self, DeviceBackend, DevicePtr, RegionKind};
use crate::error::{Result, TesseraError};
use crate::shared_map;

verus! {

/// Configuration of the state cache. All sizes are in bytes.
#[derive(Debug, Clone, Copy, PartialEq, Eq, Structural)]
pub struct StateCacheConfig {
    /// Bytes per request for the sliding-window part.
    pub swa_bytes_per_request: u64,
    /// Bytes per request for the uncompressed tail.
    pub tail_bytes_per_request: u64,
    /// Requests that the cache supports at the same time.
    pub max_requests: u32,
}

impl StateCacheConfig {
    /// Bytes of one token on one layer: the RoPE part in BF16, the rest of the head in FP8.
    pub open spec fn token_bytes(head_dim: u32, rope_dim: u32) -> nat {
        2 * rope_dim as nat + (if head_dim > rope_dim {
            (head_dim - rope_dim) as nat
        } else {
            0nat
        })
    }

    /// Bytes that the configuration reserves.
    pub open spec fn footprint(self) -> nat {
        self.max_requests as nat * (self.swa_bytes_per_request as nat
            + self.tail_bytes_per_request as nat)
    }

    /// Total device bytes reserved by this configuration.
    pub fn total_bytes(&self) -> (r: u64)
        requires
            self.swa_bytes_per_request + self.tail_bytes_per_request <= u64::MAX,
            self.footprint() <= u64::MAX,
        ensures
            r == self.footprint(),
    {
        self.max_requests as u64 * (self.swa_bytes_per_request + self.tail_bytes_per_request)
    }

    /// Derive a configuration from V4 parameters: `win` tokens of sliding window and
    /// `max_uncompressed_tail` tokens of tail on every layer.
    pub fn for_v4(
        head_dim: u32,
        rope_dim: u32,
        num_layers: u32,
        win: u32,
        max_uncompressed_tail: u32,
        max_requests: u32,
    ) -> (c: StateCacheConfig)
        requires
            StateCacheConfig::token_bytes(head_dim, rope_dim) * num_layers as nat <= u64::MAX,
            StateCacheConfig::token_bytes(head_dim, rope_dim) * num_layers as nat * win as nat
                <= u64::MAX,
            StateCacheConfig::token_bytes(head_dim, rope_dim) * num_layers as nat
                * max_uncompressed_tail as nat <= u64::MAX,
        ensures
            c.swa_bytes_per_request == StateCacheConfig::token_bytes(head_dim, rope_dim)
                * num_layers as nat * win as nat,
            c.tail_bytes_per_request == StateCacheConfig::token_bytes(head_dim, rope_dim)
                * num_layers as nat * max_uncompressed_tail as nat,
            c.max_requests == max_requests,
    {
        let bytes_per_token: u64 = rope_dim as u64 * 2 + head_dim.saturating_sub(rope_dim) as u64;
        let swa_bytes_per_request: u64 = bytes_per_token * num_layers as u64 * win as u64;
        let tail_bytes_per_request: u64 = bytes_per_token * num_layers as u64
            * max_uncompressed_tail as u64;
        StateCacheConfig { swa_bytes_per_request, tail_bytes_per_request, max_requests }
    }

    /// Whether the regions of the cache fit 64-bit sizes.
    pub open spec fn fits(self) -> bool {
        &&& self.swa_bytes_per_request as nat * self.max_requests as nat <= u64::MAX
        &&& self.tail_bytes_per_request as nat * self.max_requests as nat <= u64::MAX
    }
}

/// Mathematical state of a state cache.
#[verifier::ext_equal]
pub struct CacheState {
    /// Configuration.
    pub config: StateCacheConfig,
    /// Slot of each request that holds one.
    pub active: Map<u64, u32>,
    /// Free slots; the last one is handed out next.
    pub free: Seq<u32>,
    /// Region of the sliding-window parts.
    pub swa_base: DevicePtr,
    /// Region of the tails.
    pub tail_base: DevicePtr,
}

impl CacheState {
    /// Handles of the two parts of slot `slot`.
    pub open spec fn arena(self, slot: u32) -> (DevicePtr, DevicePtr) {
        (
            self.swa_base.advanced(slot as nat * self.config.swa_bytes_per_request as nat),
            self.tail_base.advanced(slot as nat * self.config.tail_bytes_per_request as nat),
        )
    }

    /// Handles that request `req` holds.
    pub open spec fn held(self, req: u64) -> Option<(DevicePtr, DevicePtr)> {
        if self.active.dom().contains(req) {
            Some(self.arena(self.active[req]))
        } else {
            None
        }
    }

    /// Number of slots in use.
    pub open spec fn used(self) -> int {
        self.config.max_requests - self.free.len()
    }

    /// Invariant: a slot is either free, once, or held by one request.
    pub open spec fn inv(self) -> bool {
        &&& self.config.fits()
        &&& self.swa_base.offset == 0
        &&& self.swa_base.len >= self.config.swa_bytes_per_request as nat
            * self.config.max_requests as nat
        &&& self.tail_base.offset == 0
        &&& self.tail_base.len >= self.config.tail_bytes_per_request as nat
            * self.config.max_requests as nat
        &&& self.free.no_duplicates()
        &&& forall|i: int|
            0 <= i < self.free.len() ==> (#[trigger] self.free[i]) < self.config.max_requests
        &&& forall|req: u64| #[trigger]
            self.active.dom().contains(req) ==> {
                &&& self.active[req] < self.config.max_requests
                &&& !self.free.contains(self.active[req])
            }
        &&& forall|a: u64, b: u64|
            #![trigger self.active[a], self.active[b]]
            self.active.dom().contains(a) && self.active.dom().contains(b) && a != b
                ==> self.active[a] != self.active[b]
        &&& forall|slot: u32|
            slot < self.config.max_requests ==> #[trigger] self.free.contains(slot)
                || self.holder(slot) is Some
    }

    /// The request that holds slot `slot`.
    pub open spec fn holder(self, slot: u32) -> Option<u64> {
        if exists|req: u64| self.active.dom().contains(req) && #[trigger] self.active[req] == slot {
            Some(
                choose|req: u64|
                    self.active.dom().contains(req) && #[trigger] self.active[req] == slot,
            )
        } else {
            None
        }
    }

    /// State after a slot was handed out to `req`.
    pub open spec fn allocate(self, req: u64) -> CacheState {
        CacheState {
            active: self.active.insert(req, self.free.last()),
            free: self.free.drop_last(),
            ..self
        }
    }

    /// State after `req` returned its slot, if it held one.
    pub open spec fn release(self, req: u64) -> CacheState {
        if self.active.dom().contains(req) {
            CacheState {
                active: self.active.remove(req),
                free: self.free.push(self.active[req]),
                ..self
            }
        } else {
            self
        }
    }
}

/// State cache manager.
#[derive(Debug)]
pub struct StateCache<B: DeviceBackend> {
    config: StateCacheConfig,
    backend: B,
    active: DashMap<u64, u32>,
    free_slots: Vec<u32>,
    swa_base: DevicePtr,
    tail_base: DevicePtr,
}

impl<B: DeviceBackend> View for StateCache<B> {
    type V = CacheState;

    closed spec fn view(&self) -> CacheState {
        CacheState {
            config: self.config,
            active: shared_map::number_entries(self.active),
            free: self.free_slots@,
            swa_base: self.swa_base,
            tail_base: self.tail_base,
        }
    }
}

/// `n`, or 1 in place of 0: a region is never empty.
pub open spec fn region_size(n: nat) -> nat {
    if n == 0 {
        1
    } else {
        n
    }
}

impl<B: DeviceBackend> StateCache<B> {
    /// Whether the cache is in a consistent state.
    pub closed spec fn wf(self) -> bool {
        self@.inv()
    }

    /// A consistent cache satisfies the invariant of its state.
    pub proof fn wf_implies_inv(&self)
        requires
            self.wf(),
        ensures
            self@.inv(),
    {
    }

    /// Backend of the cache.
    pub closed spec fn backend_spec(self) -> B {
        self.backend
    }

    /// Construct a state cache and reserve both of its regions on `backend`.
    pub fn new(config: StateCacheConfig, backend: B) -> (r: Result<StateCache<B>>)
        requires
            config.fits(),
        ensures
            match r {
                Ok(c) => {
                    &&& config.max_requests > 0
                    &&& c.wf()
                    &&& c@.config == config
                    &&& c@.active == Map::<u64, u32>::empty()
                    &&& c@.free == Seq::new(
                        config.max_requests as nat,
                        |i: int| (config.max_requests - 1 - i) as u32,
                    )
                    &&& c@.swa_base == (DevicePtr {
                        region: backend.regions().len() as u32,
                        offset: 0,
                        len: region_size(
                            config.swa_bytes_per_request as nat * config.max_requests as nat,
                        ) as u64,
                    })
                    &&& c@.tail_base == (DevicePtr {
                        region: (backend.regions().len() + 1) as u32,
                        offset: 0,
                        len: region_size(
                            config.tail_bytes_per_request as nat * config.max_requests as nat,
                        ) as u64,
                    })
                    &&& c.backend_spec().regions().len() == backend.regions().len() + 2
                    &&& c.backend_spec().regions().take(backend.regions().len() as int)
                        == backend.regions()
                    &&& c.backend_spec().regions()[backend.regions().len() as int].len()
                        == c@.swa_base.len
                    &&& c.backend_spec().regions().last().len() == c@.tail_base.len
                },
                Err(e) => if config.max_requests == 0 {
                    e.is_invalid_config("StateCacheConfig::max_requests must be > 0"@)
                } else {
                    &&& e is Backend
                    &&& !(backend.dependable() && region_size(
                        config.swa_bytes_per_request as nat * config.max_requests as nat,
                    ) <= usize::MAX && region_size(
                        config.tail_bytes_per_request as nat * config.max_requests as nat,
                    ) <= usize::MAX && backend.regions().len() + 1 <= u32::MAX)
                },
            },
            r matches Ok(c) ==> exists|window: &mut B, tail: &mut B|
                {
                    &&& *window == backend
                    &&& *tail == *final(window)
                    &&& c.backend_spec() == *final(tail)
                    &&& #[trigger] call_ensures(
                        B::alloc_region,
                        (window, c@.swa_base.len, RegionKind::Primary),
                        Ok::<DevicePtr, crate::error::BackendError>(c@.swa_base),
                    )
                    &&& #[trigger] call_ensures(
                        B::alloc_region,
                        (tail, c@.tail_base.len, RegionKind::Rope),
                        Ok::<DevicePtr, crate::error::BackendError>(c@.tail_base),
                    )
                },
            r matches Err(TesseraError::Backend(cause)) ==> exists|
                called: &mut B,
                bytes: u64,
                kind: RegionKind,
            |
                #[trigger]
                call_ensures(
                    B::alloc_region,
                    (called, bytes, kind),
                    Err::<DevicePtr, crate::error::BackendError>(cause),
                ),
    {
        if config.max_requests == 0 {
            return Err(
                TesseraError::invalid_config("StateCacheConfig::max_requests must be > 0"),
            );
        }
        let mut backend = backend;
        let ghost b0 = backend;
        let swa_total: u64 = config.swa_bytes_per_request * config.max_requests as u64;
        let tail_total: u64 = config.tail_bytes_per_request * config.max_requests as u64;
        let swa_size: u64 = if swa_total == 0 {
            1
        } else {
            swa_total
        };
        let tail_size: u64 = if tail_total == 0 {
            1
        } else {
            tail_total
        };
        let swa_base = match backend.alloc_region(swa_size, RegionKind::Primary) {
            Ok(p) => p,
            Err(e) => {
                return Err(TesseraError::Backend(e));
            },
        };
        let ghost b1 = backend;
        proof {
            assert(exists|called: &mut B|
                {
                    &&& *called == b0
                    &&& *final(called) == b1
                    &&& #[trigger] call_ensures(
                        B::alloc_region,
                        (called, swa_base.len, RegionKind::Primary),
                        Ok::<DevicePtr, crate::error::BackendError>(swa_base),
                    )
                });
        }
        let tail_base = match backend.alloc_region(tail_size, RegionKind::Rope) {
            Ok(p) => p,
            Err(e) => {
                return Err(TesseraError::Backend(e));
            },
        };
        proof {
            assert(exists|called: &mut B|
                {
                    &&& *called == b1
                    &&& *final(called) == backend
                    &&& #[trigger] call_ensures(
                        B::alloc_region,
                        (called, tail_base.len, RegionKind::Rope),
                        Ok::<DevicePtr, crate::error::BackendError>(tail_base),
                    )
                });
        }
        let mut free_slots: Vec<u32> = Vec::with_capacity(config.max_requests as usize);
        let mut i: u32 = config.max_requests;
        while i > 0
            invariant
                i <= config.max_requests,
                free_slots@ == Seq::new(
                    (config.max_requests - i) as nat,
                    |j: int| (config.max_requests - 1 - j) as u32,
                ),
            decreases i,
        {
            i -= 1;
            free_slots.push(i);
            assert(free_slots@ =~= Seq::new(
                (config.max_requests - i) as nat,
                |j: int| (config.max_requests - 1 - j) as u32,
            ));
        }
        let c = StateCache {
            config,
            backend,
            active: shared_map::new_number(),
            free_slots,
            swa_base,
            tail_base,
        };
        proof {
            let window = choose|called: &mut B|
                {
                    &&& *called == b0
                    &&& *final(called) == b1
                    &&& #[trigger] call_ensures(
                        B::alloc_region,
                        (called, swa_base.len, RegionKind::Primary),
                        Ok::<DevicePtr, crate::error::BackendError>(swa_base),
                    )
                };
            let tail = choose|called: &mut B|
                {
                    &&& *called == b1
                    &&& *final(called) == backend
                    &&& #[trigger] call_ensures(
                        B::alloc_region,
                        (called, tail_base.len, RegionKind::Rope),
                        Ok::<DevicePtr, crate::error::BackendError>(tail_base),
                    )
                };
            assert(*window == b0 && *tail == *final(window));
            let s = c@;
            assert forall|slot: u32| slot < s.config.max_requests implies #[trigger] s.free.contains(
                slot,
            ) || s.holder(slot) is Some by {
                assert(s.free[s.config.max_requests - 1 - slot] == slot);
            }
        }
        Ok(c)
    }

    /// The configuration.
    pub fn config(&self) -> (c: &StateCacheConfig)
        ensures
            *c == self@.config,
    {
        &self.config
    }

    /// Handles of the two parts of a slot.
    fn arena_of(&self, slot: u32) -> (r: (DevicePtr, DevicePtr))
        requires
            self.wf(),
            slot < self@.config.max_requests,
        ensures
            r == self@.arena(slot),
    {
        proof {
            device::slot_fits(
                slot as int,
                self.config.max_requests as int,
                self.config.swa_bytes_per_request as int,
            );
            device::slot_fits(
                slot as int,
                self.config.max_requests as int,
                self.config.tail_bytes_per_request as int,
            );
        }
        let swa = self.swa_base.offset(slot as u64 * self.config.swa_bytes_per_request);
        let tail = self.tail_base.offset(slot as u64 * self.config.tail_bytes_per_request);
        (swa, tail)
    }

    /// Hand out an arena to `req_id`. A request that already holds one gets the same handles
    /// again. Without a free slot the cache is out of blocks.
    pub fn allocate_for_request(&mut self, req_id: u64) -> (r: Result<(DevicePtr, DevicePtr)>)
        requires
            old(self).wf(),
        ensures
            final(self).wf(),
            final(self).backend_spec() == old(self).backend_spec(),
            match r {
                Ok(ptrs) => {
                    &&& final(self)@.held(req_id) == Some(ptrs)
                    &&& if old(self)@.active.dom().contains(req_id) {
                        final(self)@ == old(self)@
                    } else {
                        &&& old(self)@.free.len() > 0
                        &&& final(self)@ == old(self)@.allocate(req_id)
                    }
                },
                Err(e) => {
                    &&& !old(self)@.active.dom().contains(req_id)
                    &&& old(self)@.free.len() == 0
                    &&& e == (TesseraError::OutOfBlocks {
                        used: old(self)@.config.max_requests,
                        total: old(self)@.config.max_requests,
                    })
                    &&& final(self)@ == old(self)@
                },
            },
    {
        if let Some(slot) = shared_map::get_number(&self.active, req_id) {
            return Ok(self.arena_of(slot));
        }
        let slot: u32 = match self.free_slots.pop() {
            Some(slot) => slot,
            None => {
                return Err(
                    TesseraError::OutOfBlocks {
                        used: self.config.max_requests,
                        total: self.config.max_requests,
                    },
                );
            },
        };
        shared_map::insert_number(&mut self.active, req_id, slot);
        proof {
            assert(old(self)@.free[old(self)@.free.len() - 1] == slot);
            assert(self@ =~= old(self)@.allocate(req_id));
            allocate_keeps_inv(old(self)@, req_id);
        }
        Ok(self.arena_of(slot))
    }

    /// Return the arena held by `req_id`. Returns `true` when a slot was actually freed.
    pub fn release_request(&mut self, req_id: u64) -> (r: bool)
        requires
            old(self).wf(),
        ensures
            final(self).wf(),
            final(self).backend_spec() == old(self).backend_spec(),
            r == old(self)@.active.dom().contains(req_id),
            final(self)@ == old(self)@.release(req_id),
    {
        match shared_map::remove_number(&mut self.active, req_id) {
            Some(slot) => {
                self.free_slots.push(slot);
                proof {
                    assert(self@ =~= old(self)@.release(req_id));
                    release_keeps_inv(old(self)@, req_id);
                }
                true
            },
            None => {
                proof {
                    assert(self@.active =~= old(self)@.active);
                    assert(self@ =~= old(self)@);
                }
                false
            },
        }
    }

    /// Look up the arena of `req_id` without allocating one.
    pub fn ptrs_for(&self, req_id: u64) -> (r: Option<(DevicePtr, DevicePtr)>)
        requires
            self.wf(),
        ensures
            r == self@.held(req_id),
    {
        match shared_map::get_number(&self.active, req_id) {
            Some(slot) => Some(self.arena_of(slot)),
            None => None,
        }
    }

    /// Number of requests that hold a slot.
    pub fn used(&self) -> (n: u32)
        requires
            self.wf(),
        ensures
            n == self@.used(),
    {
        proof {
            used_counts_requests(self@);
        }
        self.config.max_requests - self.free_slots.len() as u32
    }

    /// Total slot capacity.
    pub fn capacity(&self) -> (n: u32)
        ensures
            n == self@.config.max_requests,
    {
        self.config.max_requests
    }

    /// Utilisation as the exact fraction of slots in use over slots.
    pub fn utilization(&self) -> (r: (u32, u32))
        requires
            self.wf(),
        ensures
            r.0 == self@.used(),
            r.1 == self@.config.max_requests,
    {
        (self.used(), self.config.max_requests)
    }

    /// Backend handle.
    pub fn backend(&self) -> (b: &B)
        ensures
            *b == self.backend_spec(),
    {
        &self.backend
    }
}

/// Handing out a slot keeps the invariant.
pub proof fn allocate_keeps_inv(s: CacheState, req: u64)
    requires
        s.inv(),
        s.free.len() > 0,
        !s.active.dom().contains(req),
    ensures
        s.allocate(req).inv(),
{
    let t = s.allocate(req);
    let slot = s.free.last();
    let last = s.free.len() - 1;
    assert(s.free[last] == slot);
    assert forall|i: int| 0 <= i < t.free.len() implies (#[trigger] t.free[i])
        < t.config.max_requests by {
        assert(t.free[i] == s.free[i]);
    }
    assert(!t.free.contains(slot)) by {
        if t.free.contains(slot) {
            let i = choose|i: int| 0 <= i < t.free.len() && t.free[i] == slot;
            assert(s.free[i] == s.free[last]);
        }
    }
    assert forall|x: u32| t.free.contains(x) implies s.free.contains(x) by {
        let i = choose|i: int| 0 <= i < t.free.len() && t.free[i] == x;
        assert(s.free[i] == x);
    }
    assert(s.free.contains(slot));
    assert forall|r: u64| #[trigger] t.active.dom().contains(r) implies {
        &&& t.active[r] < t.config.max_requests
        &&& !t.free.contains(t.active[r])
    } by {
        if r != req {
            assert(s.active.dom().contains(r));
        }
    }
    assert forall|a: u64, b: u64|
        #![trigger t.active[a], t.active[b]]
        t.active.dom().contains(a) && t.active.dom().contains(b) && a != b implies t.active[a]
        != t.active[b] by {
        if a != req {
            assert(s.active.dom().contains(a));
        }
        if b != req {
            assert(s.active.dom().contains(b));
        }
    }
    assert forall|x: u32| x < t.config.max_requests implies #[trigger] t.free.contains(x)
        || t.holder(x) is Some by {
        assert(s.free.contains(x) || s.holder(x) is Some);
        if x == slot {
            assert(t.active.dom().contains(req) && t.active[req] == x);
        } else if s.free.contains(x) {
            let i = choose|i: int| 0 <= i < s.free.len() && s.free[i] == x;
            assert(t.free[i] == x);
        } else {
            let r = s.holder(x)->0;
            assert(t.active.dom().contains(r) && t.active[r] == x);
        }
    }
}

/// Returning a slot keeps the invariant.
pub proof fn release_keeps_inv(s: CacheState, req: u64)
    requires
        s.inv(),
    ensures
        s.release(req).inv(),
{
    if s.active.dom().contains(req) {
        let t = s.release(req);
        let slot = s.active[req];
        assert(!s.free.contains(slot));
        assert forall|i: int| 0 <= i < t.free.len() implies (#[trigger] t.free[i])
            < t.config.max_requests by {
            if i < s.free.len() {
                assert(t.free[i] == s.free[i]);
            }
        }
        assert forall|x: u32| t.free.contains(x) == (s.free.contains(x) || x == slot) by {
            if s.free.contains(x) {
                let i = choose|i: int| 0 <= i < s.free.len() && s.free[i] == x;
                assert(t.free[i] == x);
            }
            assert(t.free[s.free.len() as int] == slot);
            if t.free.contains(x) {
                let i = choose|i: int| 0 <= i < t.free.len() && t.free[i] == x;
                if i < s.free.len() {
                    assert(s.free[i] == x);
                }
            }
        }
        assert forall|r: u64| #[trigger] t.active.dom().contains(r) implies {
            &&& t.active[r] < t.config.max_requests
            &&& !t.free.contains(t.active[r])
        } by {
            assert(s.active.dom().contains(r));
            assert(s.active[r] != s.active[req]);
        }
        assert forall|a: u64, b: u64|
            #![trigger t.active[a], t.active[b]]
            t.active.dom().contains(a) && t.active.dom().contains(b) && a != b implies t.active[a]
            != t.active[b] by {
            assert(s.active.dom().contains(a) && s.active.dom().contains(b));
            assert(s.active[a] != s.active[b]);
        }
        assert forall|x: u32| x < t.config.max_requests implies #[trigger] t.free.contains(x)
            || t.holder(x) is Some by {
            assert(s.free.contains(x) || s.holder(x) is Some);
            if !t.free.contains(x) {
                let r = s.holder(x)->0;
                assert(s.active.dom().contains(r) && s.active[r] == x);
                assert(t.active.dom().contains(r) && t.active[r] == x);
            }
        }
    }
}

/// The slots in use are as many as the requests that hold one.
pub proof fn used_counts_requests(s: CacheState)
    requires
        s.inv(),
    ensures
        s.active.dom().finite(),
        s.active.dom().len() == s.used(),
        0 <= s.used() <= s.config.max_requests,
{
    let n = s.config.max_requests as int;
    let range = vstd::set_lib::set_int_range(0, n);
    vstd::set_lib::lemma_int_range(0, n);
    let all = range.map(|i: int| i as u32);
    vstd::set_lib::lemma_map_size(range, all, |i: int| i as u32);
    let free = s.free.to_set();
    s.free.unique_seq_to_set();
    let taken = all.difference(free);
    assert(free.subset_of(all)) by {
        assert forall|x: u32| free.contains(x) implies all.contains(x) by {
            let i = choose|i: int| 0 <= i < s.free.len() && s.free[i] == x;
            assert(range.contains(x as int));
        }
    }
    assert(taken + free =~= all);
    vstd::set_lib::lemma_set_disjoint_lens(taken, free);
    let dom = s.active.dom();
    let holder = |x: u32| s.holder(x)->0;
    assert(taken.map(holder) =~= dom) by {
        assert forall|r: u64| taken.map(holder).contains(r) == dom.contains(r) by {
            if dom.contains(r) {
                let x = s.active[r];
                assert(x < s.config.max_requests);
                assert(range.contains(x as int));
                assert(all.contains(x));
                assert(!s.free.contains(x));
                assert(taken.contains(x));
                assert(s.holder(x) is Some);
                let h = s.holder(x)->0;
                assert(dom.contains(h) && s.active[h] == x);
                if h != r {
                    assert(s.active[h] != s.active[r]);
                }
                assert(holder(x) == r);
            }
            if taken.map(holder).contains(r) {
                let x = choose|x: u32| taken.contains(x) && holder(x) == r;
                assert(all.contains(x));
                assert(x < s.config.max_requests);
                assert(!s.free.contains(x));
                assert(s.holder(x) is Some);
                assert(dom.contains(s.holder(x)->0));
            }
        }
    }
    assert forall|x: u32, y: u32|
        taken.contains(x) && taken.contains(y) && #[trigger] holder(x) == #[trigger] holder(
            y,
        ) implies x == y by {
        assert(all.contains(x) && all.contains(y));
        assert(!s.free.contains(x) && !s.free.contains(y));
        assert(s.holder(x) is Some && s.holder(y) is Some);
        assert(s.active[s.holder(x)->0] == x);
        assert(s.active[s.holder(y)->0] == y);
    }
    vstd::set_lib::lemma_map_size(taken, dom, holder);
}

/// A request keeps its arena as long as it does not release it: allocating twice gives the same
/// handles and takes one slot.
pub proof fn allocation_is_idempotent(s: CacheState, req: u64)
    requires
        s.inv(),
        s.free.len() > 0,
        !s.active.dom().contains(req),
    ensures
        s.allocate(req).held(req) is Some,
        s.allocate(req).used() == s.used() + 1,
        s.allocate(req).release(req).active == s.active,
        s.allocate(req).release(req).free == s.free,
{
    assert(s.allocate(req).release(req).active =~= s.active);
    assert(s.allocate(req).release(req).free =~= s.free);
}

/// The arenas of two requests do not overlap.
pub proof fn arenas_are_disjoint(s: CacheState, a: u64, b: u64)
    requires
        s.inv(),
        s.active.dom().contains(a),
        s.active.dom().contains(b),
        a != b,
    ensures
        ({
            let (swa_a, tail_a) = s.held(a)->0;
            let (swa_b, tail_b) = s.held(b)->0;
            let swa = s.config.swa_bytes_per_request;
            let tail = s.config.tail_bytes_per_request;
            &&& swa_a.offset + swa <= swa_b.offset || swa_b.offset + swa <= swa_a.offset
            &&& tail_a.offset + tail <= tail_b.offset || tail_b.offset + tail <= tail_a.offset
            &&& swa_a.offset + swa <= s.swa_base.len
            &&& tail_a.offset + tail <= s.tail_base.len
        }),
{
    let x = s.active[a] as int;
    let y = s.active[b] as int;
    let n = s.config.max_requests as int;
    let swa = s.config.swa_bytes_per_request as int;
    let tail = s.config.tail_bytes_per_request as int;
    assert(s.active[a] != s.active[b]);
    device::slot_fits(x, n, swa);
    device::slot_fits(y, n, swa);
    device::slot_fits(x, n, tail);
    device::slot_fits(y, n, tail);
    assert(x * swa + swa <= y * swa || y * swa + swa <= x * swa) by (nonlinear_arith)
        requires
            0 <= x,
            0 <= y,
            x != y,
            0 <= swa,
    ;
    assert(x * tail + tail <= y * tail || y * tail + tail <= x * tail) by (nonlinear_arith)
        requires
            0 <= x,
            0 <= y,
            x != y,
            0 <= tail,
    ;
}

/// A per-request arena.
pub trait RequestArena {
    /// Whether the arena is in a consistent state, which every operation keeps. By default every
    /// state is.
    open spec fn usable(&self) -> bool {
        true
    }

    /// Handles that a request holds.
    closed spec fn holding(&self, req_id: u64) -> Option<(DevicePtr, DevicePtr)> {
        arbitrary()
    }

    /// Name of the arena.
    closed spec fn label(&self) -> Seq<char> {
        arbitrary()
    }

    /// Acquire or look up the handles of a request.
    fn acquire(&mut self, req_id: u64) -> (r: Result<(DevicePtr, DevicePtr)>)
        requires
            old(self).usable(),
        ensures
            final(self).usable(),
            forall|other: u64|
                other != req_id ==> #[trigger] final(self).holding(other) == old(self).holding(
                    other,
                ),
            match r {
                Ok(ptrs) => {
                    &&& final(self).holding(req_id) == Some(ptrs)
                    &&& old(self).holding(req_id) is Some ==> old(self).holding(req_id) == Some(
                        ptrs,
                    )
                },
                Err(_) => {
                    &&& old(self).holding(req_id) is None
                    &&& final(self).holding(req_id) is None
                },
            },
    ;

    /// Release the state of a request. Returns `true` if there was any.
    fn release(&mut self, req_id: u64) -> (r: bool)
        requires
            old(self).usable(),
        ensures
            final(self).usable(),
            r == (old(self).holding(req_id) is Some),
            final(self).holding(req_id) is None,
            forall|other: u64|
                other != req_id ==> #[trigger] final(self).holding(other) == old(self).holding(
                    other,
                ),
    ;

    /// Diagnostic name.
    fn name(&self) -> (s: &'static str)
        ensures
            s@ == self.label(),
    ;
}

impl<B: DeviceBackend> RequestArena for StateCache<B> {
    open spec fn usable(&self) -> bool {
        self.wf()
    }

    open spec fn holding(&self, req_id: u64) -> Option<(DevicePtr, DevicePtr)> {
        self@.held(req_id)
    }

    open spec fn label(&self) -> Seq<char> {
        "v4_state_cache"@
    }

    fn acquire(&mut self, req_id: u64) -> (r: Result<(DevicePtr, DevicePtr)>) {
        self.allocate_for_request(req_id)
    }

    fn release(&mut self, req_id: u64) -> (r: bool) {
        self.release_request(req_id)
    }

    fn name(&self) -> (s: &'static str) {
        "v4_state_cache"
    }
}

/// A token of the state cache takes what a token of a sliding-window layer takes, and both parts of
/// all requests together are the whole footprint.
pub proof fn footprint_is_the_sum_of_the_parts(
    c: StateCacheConfig,
    head_dim: u32,
    rope_dim: u32,
    num_heads: u32,
    window: u32,
)
    ensures
        StateCacheConfig::token_bytes(head_dim, rope_dim) == (CompressionScheme::V4Swa {
            window,
            head_dim,
            num_heads,
            rope_dim,
        }).layer_token_bytes(),
        rope_dim <= head_dim ==> StateCacheConfig::token_bytes(head_dim, rope_dim) == head_dim
            + rope_dim,
        c.footprint() == c.max_requests * c.swa_bytes_per_request + c.max_requests
            * c.tail_bytes_per_request,
{
    let m = c.max_requests as nat;
    let a = c.swa_bytes_per_request as nat;
    let b = c.tail_bytes_per_request as nat;
    assert(m * (a + b) == m * a + m * b) by (nonlinear_arith);
}

/// Slots follow each other without gaps: slot 0 starts where the region does, and the next slot
/// starts where a slot ends. The two parts of a slot lie in the two regions of the cache.
pub proof fn slots_follow_each_other(s: CacheState, slot: u32)
    requires
        s.inv(),
        slot < s.config.max_requests,
    ensures
        s.arena(0).0 == s.swa_base,
        s.arena(0).1 == s.tail_base,
        s.arena(slot).0.region == s.swa_base.region,
        s.arena(slot).1.region == s.tail_base.region,
        slot + 1 < s.config.max_requests ==> {
            let next = s.arena((slot + 1) as u32);
            &&& next.0.offset == s.arena(slot).0.offset + s.config.swa_bytes_per_request
            &&& next.1.offset == s.arena(slot).1.offset + s.config.tail_bytes_per_request
        },
        s.arena(slot).0.len >= s.config.swa_bytes_per_request,
        s.arena(slot).1.len >= s.config.tail_bytes_per_request,
{
    let n = s.config.max_requests as int;
    let a = s.config.swa_bytes_per_request as int;
    let b = s.config.tail_bytes_per_request as int;
    let k = slot as int;
    assert(0 * a == 0 && 0 * b == 0) by (nonlinear_arith);
    device::slot_fits(k, n, a);
    device::slot_fits(k, n, b);
    assert((k + 1) * a == k * a + a && (k + 1) * b == k * b + b) by (nonlinear_arith);
    if k + 1 < n {
        device::slot_fits(k + 1, n, a);
        device::slot_fits(k + 1, n, b);
    }
}

/// Handing out a slot takes one free slot and leaves what the other requests hold; the slot was
/// nobody's.
pub proof fn allocation_leaves_the_others(s: CacheState, req: u64, other: u64)
    requires
        s.inv(),
        s.free.len() > 0,
        !s.active.dom().contains(req),
        other != req,
    ensures
        s.allocate(req).held(req) is Some,
        s.allocate(req).held(other) == s.held(other),
        s.held(other) is Some ==> s.active[other] != s.allocate(req).active[req],
        s.allocate(req).free.len() == s.free.len() - 1,
        !s.allocate(req).free.contains(s.allocate(req).active[req]),
        s.free.contains(s.allocate(req).active[req]),
{
    allocate_keeps_inv(s, req);
    let slot = s.free.last();
    assert(s.free[s.free.len() - 1] == slot);
    assert(s.allocate(req).active.dom().contains(req));
}

/// Returning a slot frees it for the next request, which gets the same arena, and leaves what the
/// others hold. A request that holds nothing returns nothing.
pub proof fn released_arena_is_reused(s: CacheState, req: u64, next: u64, other: u64)
    requires
        s.inv(),
        other != req,
    ensures
        s.release(req).held(req) is None,
        s.release(req).held(other) == s.held(other),
        s.held(req) is None ==> s.release(req) == s,
        s.held(req) is Some ==> {
            &&& s.release(req).free.len() == s.free.len() + 1
            &&& s.release(req).used() == s.used() - 1
            &&& s.release(req).allocate(next).held(next) == s.held(req)
        },
{
}

/// A region has room for what it is made for, and is never empty.
pub proof fn regions_are_never_empty(n: nat)
    ensures
        region_size(n) >= 1,
        region_size(n) >= n,
        n > 0 ==> region_size(n) == n,
        region_size(n) <= n + 1,
{
}

} // verus!
