//! [`TesseraBlockManager`]: a fixed pool of MLA blocks backed by parallel device regions.
//!
//! The manager owns the primary `c_kv` region, the secondary `k_rope` region and, when the dtype
//! needs them, a region of per-layer scale factors. Blocks are allocated for requests, sealed
//! and deduplicated by content, forked copy-on-write, and freed by reference count. When the
//! free list is exhausted, an allocation evicts one block by the policy of [`crate::pool`].
//!
//! Everything that touches device memory goes through [`DeviceBackend`].

use std::sync::Arc;

use vstd::prelude::*;
use vstd::string::*;

use crate::block::{BlockId, BlockMeta, GlobalBlockId, TokenRange};
use crate::config::MlaBlockConfig;
use crate::content_hash::{ContentHasher, Xxh3Hasher};
use crate::device::{self, CpuMockBackend, DeviceBackend, DevicePtr, RegionKind};
use crate::error::{Result, TesseraError};
use crate::pool::{self, BlockPool, EvictionTier};
use crate::rank::{RankId, World};
use crate::text;
use crate::transport::{BlockPayload, ReservationToken};

pub mod behaviour;
pub mod delivery;
pub mod laws;
pub mod peer;
pub mod state;
pub mod transfer;

pub use peer::BlockManagerPeerAdapter;
pub use state::ManagerState;

verus! {

/// Result of [`TesseraBlockManager::seal`].
#[derive(Debug, Clone, Copy, PartialEq, Eq, Structural)]
pub struct SealOutcome {
    /// The canonical block for this content. It differs from the sealed block if and only if a
    /// duplicate was detected; callers use this block from then on.
    pub canonical_block: BlockId,
    /// Content hash of the sealed block's `c_kv` bytes.
    pub content_hash: u64,
    /// `true` when the seal collapsed a duplicate: the sealed block has been freed and the
    /// canonical block has one more reference.
    pub was_dedup: bool,
}

/// MLA-aware block manager, generic over the device and the content hasher.
#[derive(Debug)]
pub struct TesseraBlockManager<B: DeviceBackend = CpuMockBackend, H: ContentHasher = Xxh3Hasher> {
    config: MlaBlockConfig,
    backend: B,
    hasher: H,
    rank: RankId,
    world: Arc<World>,
    pool: BlockPool,
    primary_base: DevicePtr,
    rope_base: DevicePtr,
    fp8_scales_base: Option<DevicePtr>,
}

impl<B: DeviceBackend, H: ContentHasher> View for TesseraBlockManager<B, H> {
    type V = ManagerState;

    closed spec fn view(&self) -> ManagerState {
        ManagerState {
            pool: self.pool@,
            memory: self.backend.regions(),
            config: self.config,
            rank: self.rank,
            primary_base: self.primary_base,
            rope_base: self.rope_base,
            scales_base: self.fp8_scales_base,
        }
    }
}

/// Why a memory budget does not make a pool, as the text of the error.
pub open spec fn budget_fault(config: MlaBlockConfig, memory_bytes: u64) -> Option<Seq<char>> {
    if memory_bytes < config.block_size() {
        Some(
            "memory_bytes="@ + text::decimal(memory_bytes as nat)
                + " too small for at least one block of "@ + text::decimal(config.block_size())
                + " bytes"@,
        )
    } else if memory_bytes as nat / config.block_size() > u32::MAX {
        Some("total_blocks does not fit in u32"@)
    } else {
        None
    }
}

/// Why a manager cannot be built, as the text of the error.
pub open spec fn construction_fault(
    config: MlaBlockConfig,
    memory_bytes: u64,
    rank: RankId,
    world: World,
) -> Option<Seq<char>> {
    if rank.0 >= world.size {
        Some(
            "rank "@ + rank.label() + " is out of range for world size "@ + text::decimal(
                world.size as nat,
            ),
        )
    } else {
        budget_fault(config, memory_bytes)
    }
}

proof fn budget_covers_regions(config: MlaBlockConfig, memory_bytes: u64, total: u32)
    requires
        config.fits(),
        total as nat == memory_bytes as nat / config.block_size(),
    ensures
        config.primary_size() * total as nat <= memory_bytes,
        config.rope_size() * total as nat <= memory_bytes,
        config.scale_size() * total as nat <= memory_bytes,
{
    let per_block = config.block_size() as int;
    let t = total as int;
    let m = memory_bytes as int;
    assert(per_block * t <= m) by (nonlinear_arith)
        requires
            t == m / per_block,
            per_block > 0,
    ;
    let a = config.primary_size() as int;
    let b = config.rope_size() as int;
    let c = config.scale_size() as int;
    assert(a * t <= m && b * t <= m && c * t <= m) by (nonlinear_arith)
        requires
            per_block * t <= m,
            per_block == 64 + a + b + c,
            a >= 0,
            b >= 0,
            c >= 0,
            t >= 0,
    ;
}

impl TesseraBlockManager<CpuMockBackend, Xxh3Hasher> {
    /// Construct a singleton-world manager backed by host memory and the XXH3 hasher.
    pub fn new(config: MlaBlockConfig, memory_bytes: u64) -> (r: Result<
        TesseraBlockManager<CpuMockBackend, Xxh3Hasher>,
    >)
        requires
            config.fits(),
        ensures
            match r {
                Ok(m) => {
                    &&& budget_fault(config, memory_bytes) is None
                    &&& m.wf()
                    &&& m.dependable()
                    &&& memory_bytes as nat / config.block_size() == m@.pool.total
                    &&& 0 < m@.pool.total
                    &&& m@.built(config, RankId(0), m@.pool.total, Seq::empty(), true)
                    &&& m.in_singleton_world()
                    &&& m.hasher_spec() == Xxh3Hasher
                },
                Err(e) => match budget_fault(config, memory_bytes) {
                    Some(text) => e.is_invalid_config(text),
                    None => memory_bytes > usize::MAX && e is Backend,
                },
            },
            r matches Err(TesseraError::Backend(cause)) ==> exists|
                called: &mut CpuMockBackend,
                bytes: u64,
                kind: RegionKind,
            |
                #[trigger]
                call_ensures(
                    CpuMockBackend::alloc_region,
                    (called, bytes, kind),
                    Err::<DevicePtr, crate::error::BackendError>(cause),
                ),
    {
        TesseraBlockManager::with_backend(config, memory_bytes, CpuMockBackend::new(), Xxh3Hasher)
    }

    /// Construct a manager for one rank of a world, backed by host memory and the XXH3 hasher.
    pub fn new_with_world(
        config: MlaBlockConfig,
        memory_bytes: u64,
        rank: RankId,
        world: Arc<World>,
    ) -> (r: Result<TesseraBlockManager<CpuMockBackend, Xxh3Hasher>>)
        requires
            config.fits(),
        ensures
            match r {
                Ok(m) => {
                    &&& construction_fault(config, memory_bytes, rank, *world) is None
                    &&& m.wf()
                    &&& m.dependable()
                    &&& memory_bytes as nat / config.block_size() == m@.pool.total
                    &&& 0 < m@.pool.total
                    &&& m@.built(config, rank, m@.pool.total, Seq::empty(), true)
                    &&& m.world_spec() == world
                    &&& m.hasher_spec() == Xxh3Hasher
                },
                Err(e) => match construction_fault(config, memory_bytes, rank, *world) {
                    Some(text) => e.is_invalid_config(text),
                    None => memory_bytes > usize::MAX && e is Backend,
                },
            },
            r matches Err(TesseraError::Backend(cause)) ==> exists|
                called: &mut CpuMockBackend,
                bytes: u64,
                kind: RegionKind,
            |
                #[trigger]
                call_ensures(
                    CpuMockBackend::alloc_region,
                    (called, bytes, kind),
                    Err::<DevicePtr, crate::error::BackendError>(cause),
                ),
    {
        TesseraBlockManager::with_backend_and_world(
            config,
            memory_bytes,
            CpuMockBackend::new(),
            Xxh3Hasher,
            rank,
            world,
        )
    }
}

impl<B: DeviceBackend, H: ContentHasher> TesseraBlockManager<B, H> {
    /// Whether the manager is in a consistent state.
    pub closed spec fn wf(self) -> bool {
        &&& self.pool.wf()
        &&& self@.inv()
    }

    /// Whether the device serves every request within range.
    pub open spec fn dependable(self) -> bool {
        self.device().dependable()
    }

    /// The device, with the regions that it holds.
    pub closed spec fn device(self) -> B {
        self.backend
    }

    /// The hasher that the manager was built with.
    pub closed spec fn hasher_spec(self) -> H {
        self.hasher
    }

    /// Content hash of `bytes`.
    pub open spec fn digest(self, bytes: Seq<u8>) -> u64 {
        self.hasher_spec().digest(bytes)
    }

    /// The world that the manager was built for.
    pub closed spec fn world_spec(self) -> Arc<World> {
        self.world
    }

    /// Whether the manager's rank is the only one of its world.
    pub open spec fn in_singleton_world(self) -> bool {
        &&& self.world_spec().size == 1
        &&& self.world_spec().local == RankId(0)
        &&& self.world_spec().topology is SingleNode
    }

    /// Whether `other` has the hasher and the world of this manager, and a device that is no less
    /// dependable.
    pub open spec fn same_setup(self, other: TesseraBlockManager<B, H>) -> bool {
        &&& other.hasher_spec() == self.hasher_spec()
        &&& other.world_spec() == self.world_spec()
        &&& self.dependable() ==> other.dependable()
    }

    /// A consistent manager satisfies the invariant of its state.
    pub proof fn wf_implies_inv(&self)
        requires
            self.wf(),
        ensures
            self@.inv(),
    {
    }

    /// Construct a manager in a singleton world from an explicit backend and hasher.
    pub fn with_backend(config: MlaBlockConfig, memory_bytes: u64, backend: B, hasher: H) -> (r:
        Result<TesseraBlockManager<B, H>>)
        requires
            config.fits(),
        ensures
            match r {
                Ok(m) => {
                    &&& budget_fault(config, memory_bytes) is None
                    &&& m.wf()
                    &&& backend.dependable() ==> m.dependable()
                    &&& memory_bytes as nat / config.block_size() == m@.pool.total
                    &&& 0 < m@.pool.total
                    &&& m@.built(
                        config,
                        RankId(0),
                        m@.pool.total,
                        backend.regions(),
                        backend.clears(),
                    )
                    &&& m.hasher_spec() == hasher
                    &&& m.in_singleton_world()
                },
                Err(e) => match budget_fault(config, memory_bytes) {
                    Some(text) => e.is_invalid_config(text),
                    None => e is Backend && !(backend.dependable() && memory_bytes <= usize::MAX
                        && backend.regions().len() + 2 <= u32::MAX),
                },
            },
            r matches Ok(m) ==> exists|primary: &mut B, rope: &mut B|
                {
                    &&& *primary == backend
                    &&& *rope == *final(primary)
                    &&& #[trigger] call_ensures(
                        B::alloc_region,
                        (primary, m@.primary_base.len, RegionKind::Primary),
                        Ok::<DevicePtr, crate::error::BackendError>(m@.primary_base),
                    )
                    &&& #[trigger] call_ensures(
                        B::alloc_region,
                        (rope, m@.rope_base.len, RegionKind::Rope),
                        Ok::<DevicePtr, crate::error::BackendError>(m@.rope_base),
                    )
                    &&& match m@.scales_base {
                        None => m.device() == *final(rope),
                        Some(base) => exists|scales: &mut B|
                            {
                                &&& *scales == *final(rope)
                                &&& m.device() == *final(scales)
                                &&& #[trigger] call_ensures(
                                    B::alloc_region,
                                    (scales, base.len, RegionKind::Fp8Scales),
                                    Ok::<DevicePtr, crate::error::BackendError>(base),
                                )
                            },
                    }
                },
            r matches Err(TesseraError::Backend(cause)) ==> exists|
                called: &mut B,
                bytes: u64,
                kind: RegionKind,
            |
                {
                    &&& #[trigger] call_ensures(
                        B::alloc_region,
                        (called, bytes, kind),
                        Err::<DevicePtr, crate::error::BackendError>(cause),
                    )
                },
    {
        TesseraBlockManager::with_backend_and_world(
            config,
            memory_bytes,
            backend,
            hasher,
            RankId(0),
            Arc::new(World::singleton()),
        )
    }

    /// Construct a manager from all of its parts. The memory budget determines how many blocks
    /// the pool holds. Device memory is allocated only after the rank and the budget have been
    /// checked.
    pub fn with_backend_and_world(
        config: MlaBlockConfig,
        memory_bytes: u64,
        backend: B,
        hasher: H,
        rank: RankId,
        world: Arc<World>,
    ) -> (r: Result<TesseraBlockManager<B, H>>)
        requires
            config.fits(),
        ensures
            match r {
                Ok(m) => {
                    &&& construction_fault(config, memory_bytes, rank, *world) is None
                    &&& m.wf()
                    &&& backend.dependable() ==> m.dependable()
                    &&& memory_bytes as nat / config.block_size() == m@.pool.total
                    &&& 0 < m@.pool.total
                    &&& m@.built(
                        config,
                        rank,
                        m@.pool.total,
                        backend.regions(),
                        backend.clears(),
                    )
                    &&& m.world_spec() == world
                    &&& m.hasher_spec() == hasher
                },
                Err(e) => match construction_fault(config, memory_bytes, rank, *world) {
                    Some(text) => e.is_invalid_config(text),
                    None => e is Backend && !(backend.dependable() && memory_bytes <= usize::MAX
                        && backend.regions().len() + 2 <= u32::MAX),
                },
            },
            r matches Ok(m) ==> exists|primary: &mut B, rope: &mut B|
                {
                    &&& *primary == backend
                    &&& *rope == *final(primary)
                    &&& #[trigger] call_ensures(
                        B::alloc_region,
                        (primary, m@.primary_base.len, RegionKind::Primary),
                        Ok::<DevicePtr, crate::error::BackendError>(m@.primary_base),
                    )
                    &&& #[trigger] call_ensures(
                        B::alloc_region,
                        (rope, m@.rope_base.len, RegionKind::Rope),
                        Ok::<DevicePtr, crate::error::BackendError>(m@.rope_base),
                    )
                    &&& match m@.scales_base {
                        None => m.device() == *final(rope),
                        Some(base) => exists|scales: &mut B|
                            {
                                &&& *scales == *final(rope)
                                &&& m.device() == *final(scales)
                                &&& #[trigger] call_ensures(
                                    B::alloc_region,
                                    (scales, base.len, RegionKind::Fp8Scales),
                                    Ok::<DevicePtr, crate::error::BackendError>(base),
                                )
                            },
                    }
                },
            r matches Err(TesseraError::Backend(cause)) ==> exists|
                called: &mut B,
                bytes: u64,
                kind: RegionKind,
            |
                {
                    &&& #[trigger] call_ensures(
                        B::alloc_region,
                        (called, bytes, kind),
                        Err::<DevicePtr, crate::error::BackendError>(cause),
                    )
                },
    {
        if rank.0 >= world.size {
            let mut s = String::from_str("rank ");
            let label = rank.to_string();
            s.append(label.as_str());
            s.append(" is out of range for world size ");
            text::push_decimal(&mut s, world.size as u64);
            return Err(TesseraError::InvalidConfig(s));
        }
        let per_block: u64 = config.total_block_bytes();
        if memory_bytes < per_block {
            let mut s = String::from_str("memory_bytes=");
            text::push_decimal(&mut s, memory_bytes);
            s.append(" too small for at least one block of ");
            text::push_decimal(&mut s, per_block);
            s.append(" bytes");
            return Err(TesseraError::InvalidConfig(s));
        }
        let blocks: u64 = memory_bytes / per_block;
        if blocks > u32::MAX as u64 {
            return Err(TesseraError::invalid_config("total_blocks does not fit in u32"));
        }
        let total_blocks: u32 = blocks as u32;
        proof {
            budget_covers_regions(config, memory_bytes, total_blocks);
            assert(total_blocks > 0) by (nonlinear_arith)
                requires
                    total_blocks == memory_bytes / per_block,
                    memory_bytes >= per_block,
                    per_block > 0,
            ;
        }
        let mut backend = backend;
        let ghost b0 = backend;
        let ghost r0 = backend.regions();
        let primary_base = match backend.alloc_region(
            config.primary_block_bytes() * total_blocks as u64,
            RegionKind::Primary,
        ) {
            Ok(p) => p,
            Err(e) => {
                return Err(TesseraError::Backend(e));
            },
        };
        let ghost b1 = backend;
        proof {
            assert(exists|called: &mut B|
                {
                    &&& *called == b0
                    &&& *final(called) == b1
                    &&& #[trigger] call_ensures(
                        B::alloc_region,
                        (called, primary_base.len, RegionKind::Primary),
                        Ok::<DevicePtr, crate::error::BackendError>(primary_base),
                    )
                });
        }
        let ghost r1 = backend.regions();
        let rope_base = match backend.alloc_region(
            config.rope_block_bytes() * total_blocks as u64,
            RegionKind::Rope,
        ) {
            Ok(p) => p,
            Err(e) => {
                return Err(TesseraError::Backend(e));
            },
        };
        let ghost b2 = backend;
        proof {
            assert(exists|called: &mut B|
                {
                    &&& *called == b1
                    &&& *final(called) == b2
                    &&& #[trigger] call_ensures(
                        B::alloc_region,
                        (called, rope_base.len, RegionKind::Rope),
                        Ok::<DevicePtr, crate::error::BackendError>(rope_base),
                    )
                });
        }
        let ghost r2 = backend.regions();
        let fp8_scales_base = if config.fp8_scale_block_bytes() > 0 {
            match backend.alloc_region(
                config.fp8_scale_block_bytes() * total_blocks as u64,
                RegionKind::Fp8Scales,
            ) {
                Ok(base) => {
                    proof {
                        assert(exists|called: &mut B|
                            {
                                &&& *called == b2
                                &&& *final(called) == backend
                                &&& #[trigger] call_ensures(
                                    B::alloc_region,
                                    (called, base.len, RegionKind::Fp8Scales),
                                    Ok::<DevicePtr, crate::error::BackendError>(base),
                                )
                            });
                    }
                    Some(base)
                },
                Err(e) => {
                    return Err(TesseraError::Backend(e));
                },
            }
        } else {
            None
        };
        let m = TesseraBlockManager {
            config,
            backend,
            hasher,
            rank,
            world,
            pool: BlockPool::new(total_blocks),
            primary_base,
            rope_base,
            fp8_scales_base,
        };
        proof {
            m.pool.wf_implies_inv();
            assert(match fp8_scales_base {
                None => m.device() == b2,
                Some(base) => exists|scales: &mut B|
                    {
                        &&& *scales == b2
                        &&& m.device() == *final(scales)
                        &&& #[trigger] call_ensures(
                            B::alloc_region,
                            (scales, base.len, RegionKind::Fp8Scales),
                            Ok::<DevicePtr, crate::error::BackendError>(base),
                        )
                    },
            });
            let primary = choose|called: &mut B|
                {
                    &&& *called == b0
                    &&& *final(called) == b1
                    &&& #[trigger] call_ensures(
                        B::alloc_region,
                        (called, primary_base.len, RegionKind::Primary),
                        Ok::<DevicePtr, crate::error::BackendError>(primary_base),
                    )
                };
            let rope = choose|called: &mut B|
                {
                    &&& *called == b1
                    &&& *final(called) == b2
                    &&& #[trigger] call_ensures(
                        B::alloc_region,
                        (called, rope_base.len, RegionKind::Rope),
                        Ok::<DevicePtr, crate::error::BackendError>(rope_base),
                    )
                };
            assert(*primary == b0 && *rope == *final(primary));
            let n = r0.len() as int;
            let r3 = m.backend.regions();
            assert(r1[n] == r1.last());
            assert(r2[n + 1] == r2.last());
            assert(r2.drop_last()[n] == r2[n]);
            assert(r3.len() >= n + 2);
            if fp8_scales_base is Some {
                assert(r3.drop_last()[n] == r3[n]);
                assert(r3.drop_last()[n + 1] == r3[n + 1]);
                assert(r3[n + 2] == r3.last());
            }
            assert forall|i: int| 0 <= i < n implies r3[i] == r0[i] by {
                assert(r1.drop_last()[i] == r1[i]);
                assert(r2.drop_last()[i] == r2[i]);
                if fp8_scales_base is Some {
                    assert(r3.drop_last()[i] == r3[i]);
                }
            }
            assert(m@.memory.take(n) =~= r0);
        }
        Ok(m)
    }

    /// This manager's rank within its world.
    pub fn rank(&self) -> (r: RankId)
        ensures
            r == self@.rank,
    {
        self.rank
    }

    /// Shared handle to the world description.
    pub fn world(&self) -> (w: &Arc<World>)
        ensures
            *w == self.world_spec(),
    {
        &self.world
    }

    /// Lift a local block id into a global one.
    pub fn global_id(&self, block_id: BlockId) -> (g: GlobalBlockId)
        ensures
            g == (GlobalBlockId { rank: self@.rank, block: block_id }),
    {
        GlobalBlockId::new(self.rank, block_id)
    }

    /// Configuration of the blocks.
    pub fn config(&self) -> (c: &MlaBlockConfig)
        ensures
            *c == self@.config,
    {
        &self.config
    }

    /// Backend handle.
    pub fn backend(&self) -> (b: &B)
        ensures
            *b == self.device(),
            b.regions() == self@.memory,
    {
        &self.backend
    }

    /// Memory utilisation as the exact fraction of blocks allocated over blocks managed.
    pub fn utilization(&self) -> (r: (u32, u32))
        requires
            self.wf(),
        ensures
            r.0 == self@.pool.used(),
            r.1 == self@.pool.total,
    {
        (self.pool.used(), self.pool.total())
    }

    /// Number of blocks currently allocated.
    pub fn used_blocks(&self) -> (n: u32)
        requires
            self.wf(),
        ensures
            n == self@.pool.used(),
    {
        self.pool.used()
    }

    /// Total blocks managed.
    pub fn total_blocks(&self) -> (n: u32)
        ensures
            n == self@.pool.total,
    {
        self.pool.total()
    }

    /// Metadata of `block_id`, if it is allocated.
    pub fn block_meta(&self, block_id: BlockId) -> (m: Option<BlockMeta>)
        requires
            self.wf(),
        ensures
            m is Some <==> self@.pool.live(block_id.0),
            m matches Some(meta) ==> meta == self@.pool.metas[block_id.0],
    {
        self.pool.meta(block_id.0)
    }

    /// The block that an allocation would evict next, with its tier.
    pub fn eviction_candidate(&self) -> (r: Option<(EvictionTier, BlockId)>)
        requires
            self.wf(),
        ensures
            match r {
                Some((tier, id)) => {
                    &&& self@.pool.victim() == Some(id.0)
                    &&& pool::state::tier_of(self@.pool.metas[id.0]) == Some(tier)
                },
                None => self@.pool.victim() is None,
            },
    {
        match self.pool.victim() {
            Some((tier, id)) => Some((tier, BlockId(id))),
            None => None,
        }
    }

    /// Evict one block, if one may be evicted, whether or not blocks are free. Returns the block
    /// and its tier.
    pub fn evict_one(&mut self) -> (r: Option<(EvictionTier, BlockId)>)
        requires
            old(self).wf(),
        ensures
            final(self).wf(),
            old(self).same_setup(*final(self)),
            final(self)@ == old(self)@.with_pool(old(self)@.pool.evict()),
            match r {
                Some((tier, id)) => {
                    &&& old(self)@.pool.victim() == Some(id.0)
                    &&& pool::state::tier_of(old(self)@.pool.metas[id.0]) == Some(tier)
                },
                None => old(self)@.pool.victim() is None,
            },
    {
        let r = self.pool.evict_one();
        proof {
            self.pool.wf_implies_inv();
            pool::laws::evict_keeps_total(old(self)@.pool);
        }
        match r {
            Some((tier, id)) => Some((tier, BlockId(id))),
            None => None,
        }
    }

    /// The block indexed under a content hash.
    pub fn indexed_block(&self, content_hash: u64) -> (r: Option<BlockId>)
        ensures
            r == (if self@.pool.index.dom().contains(content_hash) {
                Some(BlockId(self@.pool.index[content_hash]))
            } else {
                None
            }),
    {
        match self.pool.indexed(content_hash) {
            Some(id) => Some(BlockId(id)),
            None => None,
        }
    }

    /// Blocks listed for `req_id`, in order of allocation.
    pub fn request_blocks(&self, req_id: u64) -> (list: Vec<u32>)
        ensures
            list@ == self@.pool.blocks_of(req_id),
    {
        self.pool.blocks_of(req_id)
    }

    /// Make room for an allocation: evict one block if no block is free but those that reservations
    /// hold. An allocation does so itself; making room before it tells which block went. Returns
    /// the block and its tier.
    pub fn make_room(&mut self) -> (r: Option<(EvictionTier, BlockId)>)
        requires
            old(self).wf(),
        ensures
            final(self).wf(),
            old(self).same_setup(*final(self)),
            final(self).device() == old(self).device(),
            final(self)@ == old(self)@.with_pool(old(self)@.pool.with_room()),
            match r {
                Some((tier, id)) => old(self)@.pool.evicted_for_room() == seq![(tier, id.0)],
                None => old(self)@.pool.evicted_for_room().len() == 0,
            },
    {
        let r = self.pool.make_room();
        proof {
            self.pool.wf_implies_inv();
            pool::laws::evict_keeps_total(old(self)@.pool);
        }
        match r {
            Some((tier, id)) => Some((tier, BlockId(id))),
            None => None,
        }
    }

    /// Make room for a reservation of `count` slots: evict blocks to make up a shortfall of slots
    /// that no other reservation holds. A reservation does so itself; making room before it tells
    /// which blocks went. Returns their numbers and tiers.
    pub fn make_capacity(&mut self, count: u32) -> (evicted: Vec<(EvictionTier, u32)>)
        requires
            old(self).wf(),
        ensures
            final(self).wf(),
            old(self).same_setup(*final(self)),
            final(self).device() == old(self).device(),
            final(self)@ == old(self)@.with_pool(old(self)@.pool.with_capacity(count)),
            evicted@ == old(self)@.pool.evicted_for_capacity(count),
    {
        let evicted = self.pool.make_capacity(count);
        proof {
            self.pool.wf_implies_inv();
            pool::laws::with_capacity_keeps_total(old(self)@.pool, count);
        }
        evicted
    }

    /// Allocate a fresh block for `req_id`. If no block is free but those that reservations hold,
    /// one is evicted; if none may be evicted, the pool is out of blocks. The new block has one
    /// reference and is listed for the request.
    pub fn allocate(&mut self, req_id: u64, token_range: TokenRange) -> (r: Result<BlockId>)
        requires
            old(self).wf(),
        ensures
            final(self).wf(),
            old(self).same_setup(*final(self)),
            match r {
                Ok(id) => {
                    &&& old(self)@.pool.has_room()
                    &&& id.0 == old(self)@.pool.next_block()
                    &&& final(self)@ == old(self)@.with_pool(
                        old(self)@.pool.allocate(
                            req_id,
                            token_range,
                            old(self)@.config.ckv_dtype,
                        ),
                    )
                },
                Err(e) => {
                    &&& !old(self)@.pool.has_room()
                    &&& e == (TesseraError::OutOfBlocks {
                        used: old(self)@.pool.used() as u32,
                        total: old(self)@.pool.total,
                    })
                    &&& final(self)@ == old(self)@
                },
            },
    {
        let r = self.pool.allocate(req_id, token_range, self.config.ckv_dtype);
        proof {
            self.pool.wf_implies_inv();
            pool::laws::evict_keeps_total(old(self)@.pool);
        }
        match r {
            Ok(id) => Ok(BlockId(id)),
            Err(e) => Err(e),
        }
    }

    /// Increment the reference count of `block_id` and return the new count.
    pub fn increment_ref(&mut self, block_id: BlockId) -> (r: Result<u32>)
        requires
            old(self).wf(),
            old(self)@.pool.live(block_id.0) ==> old(self)@.pool.metas[block_id.0].ref_count
                < u32::MAX,
        ensures
            final(self).wf(),
            old(self).same_setup(*final(self)),
            match r {
                Ok(n) => {
                    &&& old(self)@.pool.live(block_id.0)
                    &&& n == old(self)@.pool.metas[block_id.0].ref_count + 1
                    &&& final(self)@ == old(self)@.with_pool(old(self)@.pool.retain(block_id.0))
                },
                Err(e) => {
                    &&& !old(self)@.pool.live(block_id.0)
                    &&& e == TesseraError::UnknownBlock(block_id.0)
                    &&& final(self)@ == old(self)@
                },
            },
    {
        let r = self.pool.retain(block_id.0);
        proof {
            self.pool.wf_implies_inv();
        }
        r
    }

    /// Release a reference to `block_id`; the last one returns it to the free pool. Nothing
    /// happens if the block is not allocated, for instance because it was evicted.
    pub fn free(&mut self, block_id: BlockId) -> (r: Result<()>)
        requires
            old(self).wf(),
        ensures
            final(self).wf(),
            old(self).same_setup(*final(self)),
            final(self).device() == old(self).device(),
            r is Ok,
            final(self)@ == old(self)@.with_pool(old(self)@.pool.release(block_id.0)),
    {
        self.pool.release(block_id.0);
        proof {
            self.pool.wf_implies_inv();
        }
        Ok(())
    }

    /// Release a reference to every block listed for `req_id` and remove the list. Returns the
    /// number of blocks freed; a block with other holders stays and is not counted.
    pub fn release_request(&mut self, req_id: u64) -> (n: u32)
        requires
            old(self).wf(),
        ensures
            final(self).wf(),
            old(self).same_setup(*final(self)),
            final(self).device() == old(self).device(),
            final(self)@ == old(self)@.with_pool(old(self)@.pool.release_request(req_id)),
            n == old(self)@.pool.used() - final(self)@.pool.used(),
    {
        let n = self.pool.release_request(req_id);
        proof {
            self.pool.wf_implies_inv();
            pool::laws::release_request_keeps_total(old(self)@.pool, req_id);
        }
        n
    }

    /// Handle to the primary (`c_kv`) part of `block_id`, or `None` if it is not allocated. The
    /// block counts as touched.
    pub fn primary_ptr(&mut self, block_id: BlockId) -> (r: Option<DevicePtr>)
        requires
            old(self).wf(),
        ensures
            final(self).wf(),
            old(self).same_setup(*final(self)),
            final(self).device() == old(self).device(),
            final(self)@ == old(self)@.touch(block_id.0),
            r == (if old(self)@.pool.live(block_id.0) {
                Some(old(self)@.primary_at(block_id.0))
            } else {
                None
            }),
    {
        if !self.pool.touch(block_id.0) {
            return None;
        }
        proof {
            self.pool.wf_implies_inv();
            state::block_lies_in_its_regions(old(self)@, block_id.0);
        }
        let slot: u32 = self.pool.slot(block_id.0);
        Some(self.primary_base.offset(slot as u64 * self.config.primary_block_bytes()))
    }

    /// Handle to the position-dependent (`k_rope`) part of `block_id`, or `None` if it is not
    /// allocated. The block counts as touched.
    pub fn rope_ptr(&mut self, block_id: BlockId) -> (r: Option<DevicePtr>)
        requires
            old(self).wf(),
        ensures
            final(self).wf(),
            old(self).same_setup(*final(self)),
            final(self).device() == old(self).device(),
            final(self)@ == old(self)@.touch(block_id.0),
            r == (if old(self)@.pool.live(block_id.0) {
                Some(old(self)@.rope_at(block_id.0))
            } else {
                None
            }),
    {
        if !self.pool.touch(block_id.0) {
            return None;
        }
        proof {
            self.pool.wf_implies_inv();
            state::block_lies_in_its_regions(old(self)@, block_id.0);
        }
        let slot: u32 = self.pool.slot(block_id.0);
        Some(self.rope_base.offset(slot as u64 * self.config.rope_block_bytes()))
    }

    /// Handle to the scale factors of `block_id`, or `None` when there are none or the block is
    /// not allocated.
    pub fn fp8_scales_ptr(&self, block_id: BlockId) -> (r: Option<DevicePtr>)
        requires
            self.wf(),
        ensures
            r == (if self@.scales_base is Some && self@.pool.live(block_id.0) {
                Some(self@.scales_at(block_id.0))
            } else {
                None
            }),
    {
        match self.fp8_scales_base {
            None => None,
            Some(base) => {
                if self.pool.meta(block_id.0).is_none() {
                    return None;
                }
                proof {
                    self.pool.wf_implies_inv();
                    state::block_lies_in_its_regions(self@, block_id.0);
                }
                let slot: u32 = self.pool.slot(block_id.0);
                Some(base.offset(slot as u64 * self.config.fp8_scale_block_bytes()))
            },
        }
    }

    /// Copy all parts of `block_id` to host memory.
    pub fn export_payload(&mut self, block_id: BlockId) -> (r: Result<BlockPayload>)
        requires
            old(self).wf(),
        ensures
            final(self).wf(),
            old(self).same_setup(*final(self)),
            final(self).device() == old(self).device(),
            state::exported(old(self)@, final(self)@, old(self).device(), block_id.0, r),
    {
        proof {
            let s = self@;
            pool::laws::touch_is_only_a_touch(s.pool, s.pool, block_id.0);
            pool::laws::touch_is_only_a_touch(s.pool, s.pool.touch(block_id.0), block_id.0);
            if s.pool.live(block_id.0) {
                state::block_lies_in_its_regions(s, block_id.0);
            }
        }
        let primary_ptr = match self.primary_ptr(block_id) {
            Some(p) => p,
            None => {
                return Err(TesseraError::UnknownBlock(block_id.0));
            },
        };
        let primary_bytes: u64 = self.config.primary_block_bytes();
        if primary_bytes > usize::MAX as u64 {
            return Err(TesseraError::invalid_config("primary bytes overflow usize"));
        }
        let c_kv = match self.backend.read_bytes(primary_ptr, primary_bytes as usize) {
            Ok(v) => v,
            Err(e) => {
                return Err(TesseraError::Backend(e));
            },
        };
        let rope_bytes: u64 = self.config.rope_block_bytes();
        let k_rope = if rope_bytes > 0 {
            let rope_ptr = match self.rope_ptr(block_id) {
                Some(p) => p,
                None => {
                    return Err(TesseraError::UnknownBlock(block_id.0));
                },
            };
            if rope_bytes > usize::MAX as u64 {
                return Err(TesseraError::invalid_config("rope bytes overflow usize"));
            }
            match self.backend.read_bytes(rope_ptr, rope_bytes as usize) {
                Ok(v) => v,
                Err(e) => {
                    return Err(TesseraError::Backend(e));
                },
            }
        } else {
            let empty: Vec<u8> = Vec::new();
            assert(empty@ =~= old(self)@.rope(block_id.0));
            empty
        };
        let fp8_scales = match self.fp8_scales_ptr(block_id) {
            Some(scales_ptr) => {
                let scale_bytes: u64 = self.config.fp8_scale_block_bytes();
                if scale_bytes > usize::MAX as u64 {
                    return Err(TesseraError::invalid_config("fp8 scale bytes overflow usize"));
                }
                match self.backend.read_bytes(scales_ptr, scale_bytes as usize) {
                    Ok(v) => Some(v),
                    Err(e) => {
                        return Err(TesseraError::Backend(e));
                    },
                }
            },
            None => None,
        };
        Ok(BlockPayload { c_kv, k_rope, fp8_scales })
    }

    /// Allocate a block for `req_id` and fill it from a payload. The block takes a slot of the
    /// oldest reservation of `req_id`, or else of the oldest reservation of another request, since
    /// a transfer may arrive under another request than it was announced for; without reservations
    /// it is allocated like any other. The length of the payload's primary part must be that of a
    /// block. A device failure leaves the new block allocated.
    pub fn import_payload(
        &mut self,
        req_id: u64,
        token_range: TokenRange,
        payload: &BlockPayload,
    ) -> (r: Result<BlockId>)
        requires
            old(self).wf(),
        ensures
            final(self).wf(),
            old(self).same_setup(*final(self)),
            state::imported(
                old(self)@,
                final(self)@,
                old(self).dependable(),
                req_id,
                token_range,
                *payload,
                r,
            ),
            r matches Err(TesseraError::Backend(cause)) ==> exists|
                called: &mut B,
                ptr: DevicePtr,
                bytes: &[u8],
            |
                {
                    &&& *final(called) == final(self).device()
                    &&& #[trigger] call_ensures(
                        B::write_bytes,
                        (called, ptr, bytes),
                        Err::<(), crate::error::BackendError>(cause),
                    )
                },
    {
        let primary_bytes: u64 = self.config.primary_block_bytes();
        if primary_bytes > usize::MAX as u64 {
            return Err(TesseraError::invalid_config("primary bytes overflow usize"));
        }
        if payload.c_kv.len() as u64 != primary_bytes {
            let mut s = String::from_str("import_payload: c_kv length ");
            text::push_decimal(&mut s, payload.c_kv.len() as u64);
            s.append(" doesn't match primary_block_bytes ");
            text::push_decimal(&mut s, primary_bytes);
            return Err(TesseraError::InvalidConfig(s));
        }
        proof {
            self.pool.wf_implies_inv();
            pool::laws::claimed_keeps_inv(self@.pool, req_id);
        }
        let token = self.claim(req_id);
        self.consume_reservation_slot(token);
        let block_id = match self.allocate(req_id, token_range) {
            Ok(id) => id,
            Err(e) => {
                return Err(e);
            },
        };
        let ghost s1 = self@;
        proof {
            self.pool.wf_implies_inv();
            assert(s1.pool.live(block_id.0));
            state::block_lies_in_its_regions(s1, block_id.0);
            pool::laws::touch_is_only_a_touch(s1.pool, s1.pool, block_id.0);
            pool::laws::touch_is_only_a_touch(s1.pool, s1.pool.touch(block_id.0), block_id.0);
        }
        let primary_ptr = match self.primary_ptr(block_id) {
            Some(p) => p,
            None => {
                return Err(TesseraError::UnknownBlock(block_id.0));
            },
        };
        match self.backend.write_bytes(primary_ptr, payload.c_kv.as_slice()) {
            Ok(_) => {},
            Err(e) => {
                return Err(TesseraError::Backend(e));
            },
        }
        proof {
            state::write_keeps_inv(s1.touch(block_id.0), primary_ptr, payload.c_kv@);
        }
        if self.config.rope_block_bytes() > 0 {
            let ghost s2 = self@;
            let rope_ptr = match self.rope_ptr(block_id) {
                Some(p) => p,
                None => {
                    return Err(TesseraError::UnknownBlock(block_id.0));
                },
            };
            match self.backend.write_bytes(rope_ptr, payload.k_rope.as_slice()) {
                Ok(_) => {},
                Err(e) => {
                    return Err(TesseraError::Backend(e));
                },
            }
            proof {
                state::write_keeps_inv(s2.touch(block_id.0), rope_ptr, payload.k_rope@);
            }
        }
        if let Some(scales) = &payload.fp8_scales {
            if let Some(ptr) = self.fp8_scales_ptr(block_id) {
                let ghost s3 = self@;
                match self.backend.write_bytes(ptr, scales.as_slice()) {
                    Ok(_) => {},
                    Err(e) => {
                        return Err(TesseraError::Backend(e));
                    },
                }
                proof {
                    state::write_keeps_inv(s3, ptr, scales@);
                }
            }
        }
        Ok(block_id)
    }

    /// Reserve `count` slots on this rank for an incoming transfer owned by `req_id`, evicting
    /// blocks to make up a shortfall. From then on only arriving blocks are given these slots,
    /// until the reservation is used up or released. Slots that other reservations hold do not
    /// count: the reservation is refused if the others do not suffice. The token holds the rank and
    /// a counter.
    pub fn reserve_incoming(&mut self, req_id: u64, count: u32) -> (r: Result<ReservationToken>)
        requires
            old(self).wf(),
        ensures
            final(self).wf(),
            old(self).same_setup(*final(self)),
            state::reserved(old(self)@, final(self)@, req_id, count, r),
    {
        let r = self.pool.reserve(self.rank.0, req_id, count);
        proof {
            self.pool.wf_implies_inv();
            pool::laws::with_capacity_keeps_total(old(self)@.pool, count);
        }
        match r {
            Ok(token) => Ok(ReservationToken(token)),
            Err(e) => Err(e),
        }
    }

    /// Release a previously held reservation, with the slots that it still holds. Blocks that have
    /// arrived stay. Nothing happens if there is no such reservation.
    pub fn release_reservation_local(&mut self, token: ReservationToken) -> (r: Result<()>)
        requires
            old(self).wf(),
        ensures
            final(self).wf(),
            old(self).same_setup(*final(self)),
            r is Ok,
            final(self)@ == old(self)@.with_pool(old(self)@.pool.unreserve(token.0)),
    {
        self.pool.unreserve(token.0);
        proof {
            self.pool.wf_implies_inv();
        }
        Ok(())
    }

    /// The reservation that a block arriving for `req_id` uses: the oldest one of that request that
    /// still holds a slot, otherwise the oldest one of any request.
    pub fn claim(&self, req_id: u64) -> (token: Option<ReservationToken>)
        requires
            self.wf(),
        ensures
            token == (match self@.pool.claim(req_id) {
                Some(t) => Some(ReservationToken(t)),
                None => None,
            }),
    {
        match self.pool.claim(req_id) {
            Some(t) => Some(ReservationToken(t)),
            None => None,
        }
    }

    /// Consume one slot of a reservation. Without a token, or without a reservation under it,
    /// nothing happens.
    pub fn consume_reservation_slot(&mut self, token: Option<ReservationToken>)
        requires
            old(self).wf(),
        ensures
            final(self).wf(),
            old(self).same_setup(*final(self)),
            final(self)@ == (match token {
                Some(t) => old(self)@.with_pool(old(self)@.pool.consume(t.0)),
                None => old(self)@,
            }),
    {
        if let Some(t) = token {
            self.pool.consume(t.0);
            proof {
                self.pool.wf_implies_inv();
            }
        }
    }

    /// Request and remaining slots of a reservation.
    pub fn reservation(&self, token: ReservationToken) -> (r: Option<(u64, u32)>)
        ensures
            r is Some <==> self@.pool.reservations.dom().contains(token.0),
            r matches Some(entry) ==> entry == self@.pool.reservations[token.0],
    {
        self.pool.reservation(token.0)
    }

    /// Number of active reservations.
    pub fn active_reservations(&self) -> (n: usize)
        ensures
            n == self@.pool.reservations.dom().len(),
    {
        self.pool.reservation_count()
    }

    /// Hash the primary part of a block. The block counts as touched.
    fn hash_primary(&mut self, block_id: BlockId) -> (r: Result<u64>)
        requires
            old(self).wf(),
        ensures
            final(self).wf(),
            old(self).same_setup(*final(self)),
            final(self).device() == old(self).device(),
            final(self)@ == old(self)@.touch(block_id.0),
            match r {
                Ok(h) => {
                    &&& old(self)@.pool.live(block_id.0)
                    &&& old(self)@.config.primary_size() <= usize::MAX
                    &&& h == old(self).digest(old(self)@.primary(block_id.0))
                },
                Err(e) => state::primary_unreadable(
                    e,
                    old(self)@,
                    block_id.0,
                    old(self).dependable(),
                ),
            },
            r matches Err(TesseraError::Backend(cause)) ==> {
                ||| old(self).hasher_spec().own_failure(cause)
                ||| state::read_failure(old(self).device(), cause)
            },
    {
        let ptr = match self.primary_ptr(block_id) {
            Some(p) => p,
            None => {
                return Err(TesseraError::UnknownBlock(block_id.0));
            },
        };
        proof {
            state::block_lies_in_its_regions(old(self)@, block_id.0);
        }
        let n: u64 = self.config.primary_block_bytes();
        if n > usize::MAX as u64 {
            return Err(TesseraError::invalid_config("primary bytes overflow usize"));
        }
        match self.hasher.hash_device(&self.backend, ptr, n as usize) {
            Ok(h) => Ok(h),
            Err(e) => Err(TesseraError::Backend(e)),
        }
    }

    /// Compare the primary parts of two blocks. A block that is not allocated equals no other.
    /// The blocks count as touched.
    fn blocks_have_equal_primary(&mut self, a: BlockId, b: BlockId) -> (r: Result<bool>)
        requires
            old(self).wf(),
            old(self)@.pool.live(a.0),
            old(self)@.config.primary_size() <= usize::MAX,
        ensures
            final(self).wf(),
            old(self).same_setup(*final(self)),
            final(self).device() == old(self).device(),
            final(self)@ == old(self)@.touch(a.0).touch(b.0),
            match r {
                Ok(equal) => equal == (old(self)@.pool.live(b.0) && old(self)@.primary(a.0)
                    == old(self)@.primary(b.0)),
                Err(e) => e is Backend && !old(self).dependable(),
            },
            r matches Err(TesseraError::Backend(cause)) ==> state::read_failure(
                old(self).device(),
                cause,
            ),
    {
        proof {
            state::block_lies_in_its_regions(old(self)@, a.0);
            if old(self)@.pool.live(b.0) {
                state::block_lies_in_its_regions(old(self)@, b.0);
            }
        }
        let n: usize = self.config.primary_block_bytes() as usize;
        let ptr_a = match self.primary_ptr(a) {
            Some(p) => p,
            None => {
                return Ok(false);
            },
        };
        let ptr_b = match self.primary_ptr(b) {
            Some(p) => p,
            None => {
                return Ok(false);
            },
        };
        let bytes_a = match self.backend.read_bytes(ptr_a, n) {
            Ok(v) => v,
            Err(e) => {
                return Err(TesseraError::Backend(e));
            },
        };
        let bytes_b = match self.backend.read_bytes(ptr_b, n) {
            Ok(v) => v,
            Err(e) => {
                return Err(TesseraError::Backend(e));
            },
        };
        Ok(same_bytes(&bytes_a, &bytes_b))
    }

    /// Compute the content hash of `block_id`, register it in the content index, and collapse
    /// the block onto an identical one that is already registered. The hash only finds the
    /// candidate; blocks collapse if and only if their bytes are equal. On a hash collision the
    /// block keeps its own identity and the index keeps its entry. Sealing the registered block
    /// again changes nothing but its access time. A failure of the device or of the hasher is
    /// passed on as it came.
    pub fn seal(&mut self, block_id: BlockId) -> (r: Result<SealOutcome>)
        requires
            old(self).wf(),
            forall|other: u32|
                old(self)@.pool.live(other) && other != block_id.0 && old(self)@.primary(other)
                    == old(self)@.primary(block_id.0) ==> (#[trigger] old(
                    self,
                )@.pool.metas[other]).ref_count < u32::MAX,
        ensures
            final(self).wf(),
            old(self).same_setup(*final(self)),
            match r {
                Ok(outcome) => {
                    let hash = old(self).digest(old(self)@.primary(block_id.0));
                    let dedup = old(self)@.finds_duplicate(block_id.0, hash);
                    &&& old(self)@.pool.live(block_id.0)
                    &&& outcome.content_hash == hash
                    &&& outcome.was_dedup == dedup
                    &&& outcome.canonical_block.0 == (if dedup {
                        old(self)@.pool.index[hash]
                    } else {
                        block_id.0
                    })
                    &&& final(self)@ == old(self)@.seal(block_id.0, hash)
                },
                Err(e) => {
                    &&& old(self)@.same_but_touched(final(self)@)
                    &&& state::primary_unreadable(
                        e,
                        old(self)@,
                        block_id.0,
                        old(self).dependable(),
                    )
                },
            },
            r matches Err(TesseraError::Backend(cause)) ==> {
                ||| old(self).hasher_spec().own_failure(cause)
                ||| state::read_failure(old(self).device(), cause)
            },
    {
        let id: u32 = block_id.0;
        proof {
            pool::laws::touch_is_only_a_touch(self@.pool, self@.pool, id);
        }
        let hash: u64 = match self.hash_primary(block_id) {
            Ok(h) => h,
            Err(e) => {
                return Err(e);
            },
        };
        let ghost s = self@;
        if let Some(canonical) = self.pool.indexed(hash) {
            if canonical != id {
                proof {
                    pool::laws::touch_is_only_a_touch(old(self)@.pool, s.pool, id);
                    pool::laws::touch_is_only_a_touch(
                        old(self)@.pool,
                        s.pool.touch(id),
                        canonical,
                    );
                }
                let equal: bool = match self.blocks_have_equal_primary(
                    block_id,
                    BlockId(canonical),
                ) {
                    Ok(equal) => equal,
                    Err(e) => {
                        return Err(e);
                    },
                };
                if equal {
                    proof {
                        assert(old(self)@.pool.live(canonical));
                        assert(old(self)@.primary(canonical) == old(self)@.primary(id));
                        assert(old(self)@.pool.metas[canonical].ref_count < u32::MAX);
                        assert(self@.pool.live(canonical));
                    }
                    match self.pool.retain(canonical) {
                        Ok(_) => {},
                        Err(e) => {
                            return Err(e);
                        },
                    }
                    self.pool.reclaim(id);
                    proof {
                        self.pool.wf_implies_inv();
                    }
                    return Ok(
                        SealOutcome {
                            canonical_block: BlockId(canonical),
                            content_hash: hash,
                            was_dedup: true,
                        },
                    );
                }
            }
            self.pool.mark(id, hash);
            proof {
                self.pool.wf_implies_inv();
            }
            return Ok(
                SealOutcome { canonical_block: block_id, content_hash: hash, was_dedup: false },
            );
        }
        self.pool.publish(id, hash);
        proof {
            self.pool.wf_implies_inv();
        }
        Ok(SealOutcome { canonical_block: block_id, content_hash: hash, was_dedup: false })
    }

    /// Write the per-layer scale factors of `block_id`, each as the four bytes of its bit
    /// pattern in little-endian order. Nothing is written when the configuration has no scales.
    pub fn write_fp8_scales(&mut self, block_id: BlockId, scales: &[u32]) -> (r: Result<()>)
        requires
            old(self).wf(),
        ensures
            final(self).wf(),
            old(self).same_setup(*final(self)),
            match r {
                Ok(_) => {
                    &&& scales@.len() == old(self)@.config.num_layers
                    &&& old(self)@.pool.live(block_id.0)
                    &&& final(self)@ == (if old(self)@.scales_base is Some {
                        old(self)@.with_memory(
                            device::written(
                                old(self)@.memory,
                                old(self)@.scales_at(block_id.0),
                                little_endian(scales@),
                            ),
                        )
                    } else {
                        old(self)@
                    })
                },
                Err(e) => {
                    &&& final(self)@ == old(self)@
                    &&& if scales@.len() != old(self)@.config.num_layers {
                        e.is_invalid_config(
                            "write_fp8_scales: expected "@ + text::decimal(
                                old(self)@.config.num_layers as nat,
                            ) + " scales (one per layer), got "@ + text::decimal(scales@.len()),
                        )
                    } else if !old(self)@.pool.live(block_id.0) {
                        e == TesseraError::UnknownBlock(block_id.0)
                    } else {
                        &&& old(self)@.scales_base is Some
                        &&& ({
                            ||| old(self)@.config.scale_size() > usize::MAX && e.is_invalid_config(
                                "fp8 scale bytes overflow usize"@,
                            )
                            ||| !old(self).dependable() && e is Backend
                        })
                    }
                },
            },
            r matches Err(TesseraError::Backend(cause)) ==> exists|
                called: &mut B,
                ptr: DevicePtr,
                bytes: &[u8],
            |
                {
                    &&& *final(called) == final(self).device()
                    &&& #[trigger] call_ensures(
                        B::write_bytes,
                        (called, ptr, bytes),
                        Err::<(), crate::error::BackendError>(cause),
                    )
                },
    {
        if scales.len() as u64 != self.config.num_layers as u64 {
            let mut s = String::from_str("write_fp8_scales: expected ");
            text::push_decimal(&mut s, self.config.num_layers as u64);
            s.append(" scales (one per layer), got ");
            text::push_decimal(&mut s, scales.len() as u64);
            return Err(TesseraError::InvalidConfig(s));
        }
        if self.pool.meta(block_id.0).is_none() {
            return Err(TesseraError::UnknownBlock(block_id.0));
        }
        let ptr = match self.fp8_scales_ptr(block_id) {
            Some(p) => p,
            None => {
                return Ok(());
            },
        };
        if self.config.fp8_scale_block_bytes() > usize::MAX as u64 {
            return Err(TesseraError::invalid_config("fp8 scale bytes overflow usize"));
        }
        let bytes = encode_little_endian(scales);
        proof {
            state::block_lies_in_its_regions(self@, block_id.0);
        }
        match self.backend.write_bytes(ptr, bytes.as_slice()) {
            Ok(_) => {},
            Err(e) => {
                return Err(TesseraError::Backend(e));
            },
        }
        proof {
            state::write_keeps_inv(old(self)@, ptr, bytes@);
        }
        Ok(())
    }

    /// Fork a private writable copy of `block_id` for `new_req_id`. The source is pinned while a
    /// block is found for the copy, so that the search cannot evict it, and keeps its reference
    /// count. If no block is found nothing changes. A device failure leaves the new block
    /// allocated.
    pub fn cow_fork(&mut self, block_id: BlockId, new_req_id: u64) -> (r: Result<BlockId>)
        requires
            old(self).wf(),
            old(self)@.pool.live(block_id.0) ==> old(self)@.pool.metas[block_id.0].ref_count
                < u32::MAX,
        ensures
            final(self).wf(),
            old(self).same_setup(*final(self)),
            match r {
                Ok(new) => {
                    &&& old(self)@.pool.live(block_id.0)
                    &&& old(self)@.pinned(block_id.0).has_room()
                    &&& new.0 == old(self)@.pinned(block_id.0).next_block()
                    &&& final(self)@ == old(self)@.fork(block_id.0, new_req_id)
                },
                Err(e) => if !old(self)@.pool.live(block_id.0) {
                    &&& e == TesseraError::UnknownBlock(block_id.0)
                    &&& final(self)@ == old(self)@
                } else if !old(self)@.pinned(block_id.0).has_room() {
                    &&& e == (TesseraError::OutOfBlocks {
                        used: old(self)@.pool.used() as u32,
                        total: old(self)@.pool.total,
                    })
                    &&& final(self)@ == old(self)@
                } else {
                    let new = old(self)@.pinned(block_id.0).next_block();
                    &&& e is Backend
                    &&& !old(self).dependable()
                    &&& final(self)@ == (ManagerState {
                        pool: final(self)@.pool,
                        memory: final(self)@.memory,
                        ..old(self)@
                    })
                    &&& old(self)@.forked_pool(block_id.0, new_req_id).release(
                        block_id.0,
                    ).same_but_touched(final(self)@.pool)
                    &&& final(self)@.memory == old(self)@.memory || final(self)@.memory
                        == old(self)@.primary_copied(block_id.0, new) || final(self)@.memory
                        == old(self)@.rope_copied(block_id.0, new)
                },
            },
            r matches Err(TesseraError::Backend(cause)) ==> exists|
                called: &mut B,
                from: DevicePtr,
                to: DevicePtr,
                bytes: u64,
            |
                {
                    &&& *final(called) == final(self).device()
                    &&& #[trigger] call_ensures(
                        B::memcpy,
                        (called, from, to, bytes),
                        Err::<(), crate::error::BackendError>(cause),
                    )
                },
    {
        let ghost s0 = self@;
        let id: u32 = block_id.0;
        let token_range = match self.pool.meta(id) {
            Some(meta) => meta.token_range,
            None => {
                return Err(TesseraError::UnknownBlock(id));
            },
        };
        match self.pool.retain(id) {
            Ok(_) => {},
            Err(e) => {
                return Err(e);
            },
        }
        proof {
            self.pool.wf_implies_inv();
            pool::laws::retain_then_release(s0.pool, id);
        }
        let new_id = match self.allocate(new_req_id, token_range) {
            Ok(new_id) => new_id,
            Err(e) => {
                let _ = self.free(block_id);
                return Err(e);
            },
        };
        let ghost s1 = self@;
        proof {
            pool::laws::allocation_spares_shared_blocks(
                s0.pool.retain(id),
                new_req_id,
                token_range,
                s0.config.ckv_dtype,
                id,
            );
            assert(s1.pool.live(id));
            assert(s1.pool.live(new_id.0));
        }
        let copied = self.copy_block(block_id, new_id);
        let ghost s2 = self@;
        let _ = self.free(block_id);
        proof {
            pool::laws::release_after_touch(s1.pool, s2.pool, id);
        }
        match copied {
            Ok(_) => Ok(new_id),
            Err(e) => Err(e),
        }
    }

    /// Copy all parts of block `src` to block `dst`. The blocks count as touched.
    fn copy_block(&mut self, src: BlockId, dst: BlockId) -> (r: Result<()>)
        requires
            old(self).wf(),
            old(self)@.pool.live(src.0),
            old(self)@.pool.live(dst.0),
        ensures
            final(self).wf(),
            old(self).same_setup(*final(self)),
            match r {
                Ok(_) => final(self)@ == (ManagerState {
                    pool: if old(self)@.config.rope_size() > 0 {
                        old(self)@.pool.touch(src.0).touch(dst.0).touch(src.0).touch(dst.0)
                    } else {
                        old(self)@.pool.touch(src.0).touch(dst.0)
                    },
                    memory: old(self)@.block_copied(src.0, dst.0),
                    ..old(self)@
                }),
                Err(e) => {
                    &&& e is Backend
                    &&& !old(self).dependable()
                    &&& final(self)@ == (ManagerState {
                        pool: final(self)@.pool,
                        memory: final(self)@.memory,
                        ..old(self)@
                    })
                    &&& old(self)@.pool.same_but_touched(final(self)@.pool)
                    &&& final(self)@.memory == old(self)@.memory || final(self)@.memory
                        == old(self)@.primary_copied(src.0, dst.0) || final(self)@.memory
                        == old(self)@.rope_copied(src.0, dst.0)
                },
            },
            old(self)@.pool.same_but_touched(final(self)@.pool),
            r matches Err(TesseraError::Backend(cause)) ==> exists|
                called: &mut B,
                from: DevicePtr,
                to: DevicePtr,
                bytes: u64,
            |
                {
                    &&& *final(called) == final(self).device()
                    &&& #[trigger] call_ensures(
                        B::memcpy,
                        (called, from, to, bytes),
                        Err::<(), crate::error::BackendError>(cause),
                    )
                },
    {
        let ghost s0 = self@;
        proof {
            let t1 = s0.pool.touch(src.0);
            let t2 = t1.touch(dst.0);
            let t3 = t2.touch(src.0);
            pool::laws::touch_is_only_a_touch(s0.pool, s0.pool, src.0);
            pool::laws::touch_is_only_a_touch(s0.pool, t1, dst.0);
            pool::laws::touch_is_only_a_touch(s0.pool, t2, src.0);
            pool::laws::touch_is_only_a_touch(s0.pool, t3, dst.0);
            state::block_lies_in_its_regions(s0, src.0);
            state::block_lies_in_its_regions(s0, dst.0);
        }
        let src_primary = match self.primary_ptr(src) {
            Some(p) => p,
            None => {
                return Err(TesseraError::UnknownBlock(src.0));
            },
        };
        let dst_primary = match self.primary_ptr(dst) {
            Some(p) => p,
            None => {
                return Err(TesseraError::UnknownBlock(dst.0));
            },
        };
        match self.backend.memcpy(src_primary, dst_primary, self.config.primary_block_bytes()) {
            Ok(_) => {},
            Err(e) => {
                return Err(TesseraError::Backend(e));
            },
        }
        proof {
            state::copy_keeps_inv(
                s0.touch(src.0).touch(dst.0),
                src_primary,
                dst_primary,
                s0.config.primary_size(),
            );
        }
        let rope_bytes: u64 = self.config.rope_block_bytes();
        if rope_bytes > 0 {
            let ghost s1 = self@;
            let src_rope = match self.rope_ptr(src) {
                Some(p) => p,
                None => {
                    return Err(TesseraError::UnknownBlock(src.0));
                },
            };
            let dst_rope = match self.rope_ptr(dst) {
                Some(p) => p,
                None => {
                    return Err(TesseraError::UnknownBlock(dst.0));
                },
            };
            match self.backend.memcpy(src_rope, dst_rope, rope_bytes) {
                Ok(_) => {},
                Err(e) => {
                    return Err(TesseraError::Backend(e));
                },
            }
            proof {
                state::copy_keeps_inv(
                    s1.touch(src.0).touch(dst.0),
                    src_rope,
                    dst_rope,
                    s0.config.rope_size(),
                );
            }
        }
        if let Some(src_scales) = self.fp8_scales_ptr(src) {
            let ghost s2 = self@;
            let dst_scales = match self.fp8_scales_ptr(dst) {
                Some(p) => p,
                None => {
                    return Err(TesseraError::UnknownBlock(dst.0));
                },
            };
            match self.backend.memcpy(
                src_scales,
                dst_scales,
                self.config.fp8_scale_block_bytes(),
            ) {
                Ok(_) => {},
                Err(e) => {
                    return Err(TesseraError::Backend(e));
                },
            }
            proof {
                state::copy_keeps_inv(s2, src_scales, dst_scales, s0.config.scale_size());
            }
        }
        Ok(())
    }

    /// Fill the primary part of `block_id` with one byte.
    pub fn fill_primary_test_pattern(&mut self, block_id: BlockId, byte: u8) -> (r: Result<()>)
        requires
            old(self).wf(),
        ensures
            final(self).wf(),
            old(self).same_setup(*final(self)),
            match r {
                Ok(_) => {
                    &&& old(self)@.pool.live(block_id.0)
                    &&& final(self)@ == old(self)@.touch(block_id.0).with_memory(
                        device::written(
                            old(self)@.memory,
                            old(self)@.primary_at(block_id.0),
                            device::repeated(byte, old(self)@.config.primary_size()),
                        ),
                    )
                },
                Err(e) => {
                    &&& final(self)@ == old(self)@.touch(block_id.0)
                    &&& state::primary_unreadable(
                        e,
                        old(self)@,
                        block_id.0,
                        old(self).dependable(),
                    )
                },
            },
            r matches Err(TesseraError::Backend(cause)) ==> exists|
                called: &mut B,
                ptr: DevicePtr,
                len: usize,
            |
                {
                    &&& *final(called) == final(self).device()
                    &&& #[trigger] call_ensures(
                        B::fill_pattern,
                        (called, ptr, byte, len),
                        Err::<(), crate::error::BackendError>(cause),
                    )
                },
    {
        let ptr = match self.primary_ptr(block_id) {
            Some(p) => p,
            None => {
                return Err(TesseraError::UnknownBlock(block_id.0));
            },
        };
        proof {
            state::block_lies_in_its_regions(old(self)@, block_id.0);
        }
        let n: u64 = self.config.primary_block_bytes();
        if n > usize::MAX as u64 {
            return Err(TesseraError::invalid_config("primary bytes overflow usize"));
        }
        match self.backend.fill_pattern(ptr, byte, n as usize) {
            Ok(_) => {
                proof {
                    state::write_keeps_inv(
                        old(self)@.touch(block_id.0),
                        ptr,
                        device::repeated(byte, n as nat),
                    );
                }
                Ok(())
            },
            Err(e) => Err(TesseraError::Backend(e)),
        }
    }
}

/// Whether two byte vectors are equal.
fn same_bytes(a: &Vec<u8>, b: &Vec<u8>) -> (r: bool)
    ensures
        r == (a@ == b@),
{
    if a.len() != b.len() {
        return false;
    }
    let mut i: usize = 0;
    while i < a.len()
        invariant
            i <= a@.len(),
            a@.len() == b@.len(),
            forall|j: int| 0 <= j < i ==> a@[j] == b@[j],
        decreases a.len() - i,
    {
        if a[i] != b[i] {
            return false;
        }
        i += 1;
    }
    assert(a@ =~= b@);
    true
}

/// Bytes of 32-bit numbers in little-endian order, one after the other.
pub open spec fn little_endian(words: Seq<u32>) -> Seq<u8> {
    Seq::new(
        4 * words.len(),
        |i: int|
            if i % 4 == 0 {
                (words[i / 4] & 0xff) as u8
            } else if i % 4 == 1 {
                ((words[i / 4] >> 8) & 0xff) as u8
            } else if i % 4 == 2 {
                ((words[i / 4] >> 16) & 0xff) as u8
            } else {
                ((words[i / 4] >> 24) & 0xff) as u8
            },
    )
}

/// Encode 32-bit numbers in little-endian order, one after the other.
pub fn encode_little_endian(words: &[u32]) -> (bytes: Vec<u8>)
    ensures
        bytes@ == little_endian(words@),
{
    let mut bytes: Vec<u8> = Vec::new();
    let mut i: usize = 0;
    while i < words.len()
        invariant
            i <= words@.len(),
            bytes@.len() == 4 * i,
            bytes@ == little_endian(words@).take(4 * i),
        decreases words.len() - i,
    {
        let w: u32 = words[i];
        bytes.push((w & 0xff) as u8);
        bytes.push(((w >> 8) & 0xff) as u8);
        bytes.push(((w >> 16) & 0xff) as u8);
        bytes.push(((w >> 24) & 0xff) as u8);
        i += 1;
        assert(bytes@ =~= little_endian(words@).take(4 * i));
    }
    assert(little_endian(words@).take(4 * words@.len() as int) =~= little_endian(words@));
    bytes
}

} // verus!
