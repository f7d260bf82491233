//! Allocation, eviction, sealing, forking and reservations of a block manager.

use std::collections::HashSet;
use std::sync::Arc;

use tessera::content_hash::{ContentHasher, WeightedSumHasher, Xxh3Hasher};
use tessera::device::RegionKind;
use tessera::pool::state::eviction_tier;
use tessera::pool::EvictionTier;
use tessera::{
    BackendError, BlockId, BlockMeta, BlockPayload, CkvDtype, CompressionScheme, CpuMockBackend,
    DeviceBackend, DevicePtr, GlobalBlockId, MlaBlockConfig, RankId, ReservationToken,
    TesseraBlockManager, TesseraError, TokenRange, Topology, World,
};

fn ds_v3_cfg() -> MlaBlockConfig {
    MlaBlockConfig::new(
        CompressionScheme::MlaLatent {
            latent_dim: 512,
            rope_key_dim: 64,
        },
        61,
        64,
        CkvDtype::Bf16,
        0,
    )
    .expect("DeepSeek-V3 reference config is valid")
}

fn small_cfg() -> MlaBlockConfig {
    MlaBlockConfig::new(
        CompressionScheme::MlaLatent {
            latent_dim: 32,
            rope_key_dim: 8,
        },
        4,
        64,
        CkvDtype::Bf16,
        0,
    )
    .unwrap()
}

fn fp8_cfg() -> MlaBlockConfig {
    MlaBlockConfig::new(
        CompressionScheme::MlaLatent {
            latent_dim: 32,
            rope_key_dim: 8,
        },
        4,
        64,
        CkvDtype::Fp8E4m3,
        0,
    )
    .unwrap()
}

fn make_manager() -> TesseraBlockManager {
    TesseraBlockManager::new(small_cfg(), 32 * 1024 * 1024).unwrap()
}

/// Build a manager with exactly `n_blocks` capacity.
fn make_manager_with_capacity(n_blocks: u32) -> TesseraBlockManager {
    let cfg = small_cfg();
    let block_bytes = cfg.total_block_bytes();
    TesseraBlockManager::new(cfg, u64::from(n_blocks) * block_bytes).unwrap()
}

fn primary_of(mgr: &mut TesseraBlockManager, id: BlockId) -> Vec<u8> {
    mgr.export_payload(id).unwrap().c_kv
}

// ---- allocation and release

#[test]
fn allocate_then_free_returns_to_pool() {
    let mut mgr = TesseraBlockManager::new(ds_v3_cfg(), 256 * 1024 * 1024).unwrap();
    let initial = mgr.total_blocks();
    assert!(initial > 0, "block budget must yield at least one block");

    let ids: Vec<_> = (0u64..10)
        .map(|i| mgr.allocate(i, TokenRange::new(0, 64)).unwrap())
        .collect();
    assert_eq!(mgr.used_blocks(), 10);
    assert_eq!(ids.iter().copied().collect::<HashSet<_>>().len(), 10);

    for id in ids {
        mgr.free(id).unwrap();
    }
    assert_eq!(mgr.used_blocks(), 0);
}

#[test]
fn oom_returns_typed_error() {
    // Every allocated block is pinned, so that none may be evicted.
    let mut mgr = TesseraBlockManager::new(ds_v3_cfg(), 8 * 1024 * 1024).unwrap();
    let total = mgr.total_blocks();
    for i in 0..total {
        let token = i * 64;
        let id = mgr
            .allocate(u64::from(i) + 1, TokenRange::new(token, token + 64))
            .unwrap();
        mgr.increment_ref(id).unwrap();
    }
    let err = mgr.allocate(0, TokenRange::new(0, 64)).unwrap_err();
    assert!(matches!(err, TesseraError::OutOfBlocks { .. }));
}

#[test]
fn alloc_n_then_release_request_drops_to_zero() {
    let mut mgr = make_manager();
    let req_a: u64 = 42;
    let n = 5;
    for i in 0..n {
        mgr.allocate(req_a, TokenRange::new(i * 64, (i + 1) * 64))
            .unwrap();
    }
    assert_eq!(mgr.used_blocks(), n);

    let freed = mgr.release_request(req_a);
    assert_eq!(freed, n, "release_request must report the freed count");
    assert_eq!(
        mgr.used_blocks(),
        0,
        "all blocks must be returned to free pool"
    );
}

#[test]
fn release_request_partial_respects_other_owner() {
    let mut mgr = make_manager();
    let req_a: u64 = 1;
    let req_b: u64 = 2;

    let a_block = mgr.allocate(req_a, TokenRange::new(0, 64)).unwrap();
    let b_block = mgr.allocate(req_b, TokenRange::new(64, 128)).unwrap();

    assert_eq!(mgr.used_blocks(), 2);

    let freed = mgr.release_request(req_a);
    assert_eq!(freed, 1);
    assert_eq!(mgr.used_blocks(), 1, "req_b's block must survive");

    assert!(
        mgr.primary_ptr(b_block).is_some(),
        "block must still be allocated"
    );
    assert!(mgr.primary_ptr(a_block).is_none(), "block must be freed");
}

#[test]
fn shared_block_survives_one_release() {
    let mut mgr = make_manager();
    let req_a: u64 = 10;

    let block = mgr.allocate(req_a, TokenRange::new(0, 64)).unwrap();
    mgr.increment_ref(block).unwrap();

    let _freed = mgr.release_request(req_a);

    assert_eq!(mgr.used_blocks(), 1, "shared block must still be allocated");
    assert!(mgr.primary_ptr(block).is_some());

    mgr.free(block).unwrap();
    assert_eq!(mgr.used_blocks(), 0);
}

#[test]
fn release_unknown_request_is_noop() {
    let mut mgr = make_manager();
    let freed = mgr.release_request(9999);
    assert_eq!(freed, 0);
    assert_eq!(mgr.used_blocks(), 0);
}

#[test]
fn round_trip_alloc_free_reaches_zero() {
    for n in 0usize..=50 {
        let mut mgr = make_manager_with_capacity(64);
        let ids: Vec<_> = (0..n)
            .map(|i| mgr.allocate(i as u64, TokenRange::new(0, 64)).unwrap())
            .collect();
        assert_eq!(mgr.used_blocks() as usize, n);
        for id in ids {
            mgr.free(id).unwrap();
        }
        assert_eq!(mgr.used_blocks(), 0);
    }
}

#[test]
fn release_request_frees_exactly_owned_blocks() {
    for n in 1u32..=20 {
        let mut mgr = make_manager();
        let a_blocks: Vec<_> = (0..n)
            .map(|i| {
                mgr.allocate(1, TokenRange::new(i * 64, (i + 1) * 64))
                    .unwrap()
            })
            .collect();
        let b_block = mgr
            .allocate(2, TokenRange::new(n * 64, (n + 1) * 64))
            .unwrap();
        assert_eq!(mgr.used_blocks(), n + 1);

        let freed = mgr.release_request(1);
        assert_eq!(freed, n, "must free exactly n blocks");
        assert_eq!(mgr.used_blocks(), 1, "the other request's block must remain");
        for &bid in &a_blocks {
            assert!(mgr.primary_ptr(bid).is_none(), "block must be freed");
        }
        assert!(mgr.primary_ptr(b_block).is_some());
        mgr.free(b_block).unwrap();
        assert_eq!(mgr.used_blocks(), 0);
    }
}

#[test]
fn unknown_blocks_are_reported_or_ignored() {
    let mut mgr = make_manager_with_capacity(2);
    let stranger = BlockId(1_000_000);
    assert!(mgr.free(stranger).is_ok());
    assert!(matches!(
        mgr.increment_ref(stranger),
        Err(TesseraError::UnknownBlock(1_000_000))
    ));
    assert!(matches!(
        mgr.seal(BlockId(1)),
        Err(TesseraError::UnknownBlock(1))
    ));
    assert!(matches!(
        mgr.cow_fork(BlockId(1), 7),
        Err(TesseraError::UnknownBlock(1))
    ));
    assert!(matches!(
        mgr.export_payload(BlockId(0)),
        Err(TesseraError::UnknownBlock(0))
    ));
    assert!(matches!(
        mgr.fill_primary_test_pattern(BlockId(0), 1),
        Err(TesseraError::UnknownBlock(0))
    ));
    assert!(mgr.primary_ptr(BlockId(0)).is_none());
    assert!(mgr.rope_ptr(BlockId(0)).is_none());
    assert!(mgr.block_meta(BlockId(0)).is_none());
}

#[test]
fn a_fresh_block_has_one_reference_and_is_listed() {
    let mut mgr = make_manager_with_capacity(3);
    let id = mgr.allocate(9, TokenRange::new(64, 128)).unwrap();
    let meta = mgr.block_meta(id).unwrap();
    assert_eq!(meta.block_id, id);
    assert_eq!(meta.req_id, Some(9));
    assert_eq!(meta.ref_count, 1);
    assert_eq!(meta.content_hash, 0);
    assert!(!meta.indexed);
    assert_eq!(meta.token_range, TokenRange::new(64, 128));
    assert_eq!(meta.ckv_dtype, CkvDtype::Bf16);
    assert_eq!(mgr.request_blocks(9), vec![id.raw()]);
    assert_eq!(mgr.increment_ref(id).unwrap(), 2);
    assert_eq!(mgr.utilization(), (1, 3));
}

#[test]
fn out_of_blocks_counts_used_and_total() {
    let mut mgr = make_manager_with_capacity(2);
    for req in 1..=2 {
        let id = mgr.allocate(req, TokenRange::new(0, 64)).unwrap();
        mgr.increment_ref(id).unwrap();
    }
    let err = mgr.allocate(3, TokenRange::new(0, 64)).unwrap_err();
    assert!(matches!(
        err,
        TesseraError::OutOfBlocks { used: 2, total: 2 }
    ));
    assert_eq!(err.to_string(), "out of MLA blocks (used=2, total=2)");
}

// ---- eviction

#[test]
fn orphaned_block_evicted_before_shared() {
    let mut mgr = make_manager_with_capacity(3);

    let b0 = mgr.allocate(1, TokenRange::new(0, 64)).unwrap();
    let _b1 = mgr.allocate(1, TokenRange::new(64, 128)).unwrap();
    let b2 = mgr.allocate(2, TokenRange::new(0, 64)).unwrap();

    // A second reference makes b2 shared.
    mgr.increment_ref(b2).unwrap();

    mgr.free(b0).unwrap();
    assert_eq!(mgr.used_blocks(), 2); // b1 + b2

    let b3 = mgr.allocate(3, TokenRange::new(128, 192)).unwrap();
    assert_eq!(mgr.used_blocks(), 3); // pool full

    // The next allocation must evict b1 rather than the shared b2.
    let _b4 = mgr.allocate(4, TokenRange::new(192, 256)).unwrap();

    assert!(
        mgr.primary_ptr(b2).is_some(),
        "shared block must not be evicted"
    );

    mgr.free(b2).unwrap();
    mgr.free(b2).unwrap();
    let _ = b3;
}

#[test]
fn recently_touched_block_survives_lru_eviction() {
    let mut mgr = make_manager_with_capacity(2);

    let older = mgr.allocate(1, TokenRange::new(0, 64)).unwrap();
    let newer = mgr.allocate(2, TokenRange::new(64, 128)).unwrap();

    let _ = mgr.primary_ptr(newer);

    let _third = mgr.allocate(3, TokenRange::new(128, 192)).unwrap();

    assert!(
        mgr.primary_ptr(newer).is_some(),
        "recently-touched block must survive eviction"
    );
    assert!(
        mgr.primary_ptr(older).is_none(),
        "least-recently-touched block must be evicted"
    );
}

#[test]
fn shared_block_never_evicted() {
    let mut mgr = make_manager_with_capacity(2);

    let shared = mgr.allocate(1, TokenRange::new(0, 64)).unwrap();
    let _other = mgr.allocate(2, TokenRange::new(64, 128)).unwrap();

    mgr.increment_ref(shared).unwrap();

    let _third = mgr.allocate(3, TokenRange::new(128, 192)).unwrap();

    assert!(
        mgr.primary_ptr(shared).is_some(),
        "shared block (tier d) must never be evicted"
    );

    mgr.free(shared).unwrap();
    mgr.free(shared).unwrap();
}

#[test]
fn eviction_under_full_pressure_no_panic() {
    let n_total: u32 = 50;
    let mut mgr = make_manager_with_capacity(n_total);

    // Fill to 48/50 (96%).
    for i in 0..48u32 {
        let _ = mgr
            .allocate(u64::from(i + 1), TokenRange::new(0, 64))
            .unwrap();
    }
    assert_eq!(mgr.used_blocks(), 48);

    for i in 0..10u32 {
        let bid = mgr.allocate(u64::from(1000 + i), TokenRange::new(0, 64));
        assert!(
            bid.is_ok(),
            "allocation {i} should succeed via eviction; got: {bid:?}"
        );
    }

    assert!(
        mgr.used_blocks() <= mgr.total_blocks(),
        "used_blocks {} exceeded total_blocks {}",
        mgr.used_blocks(),
        mgr.total_blocks()
    );
}

#[test]
fn eviction_never_frees_shared_block() {
    for extra_refs in 1u32..=5 {
        let cap = 20;
        let mut mgr = make_manager_with_capacity(cap);
        let shared = mgr.allocate(0, TokenRange::new(0, 64)).unwrap();
        let mut others: Vec<_> = (1..cap)
            .map(|i| mgr.allocate(u64::from(i), TokenRange::new(0, 64)).unwrap())
            .collect();
        for _ in 0..extra_refs {
            mgr.increment_ref(shared).unwrap();
        }
        assert_eq!(mgr.used_blocks(), cap);

        let last_other = others.pop().unwrap();
        for o in &others {
            mgr.free(*o).unwrap();
        }
        for i in 0..others.len() as u64 {
            mgr.allocate(i + 100, TokenRange::new(0, 64)).unwrap();
        }
        // The pool is full again: this allocation evicts a block that is not shared.
        mgr.allocate(999, TokenRange::new(0, 64)).unwrap();
        assert!(
            mgr.primary_ptr(shared).is_some(),
            "shared block must never be evicted (ref_count = {})",
            1 + extra_refs
        );
        let _ = mgr.free(last_other);
        for _ in 0..=extra_refs {
            mgr.free(shared).unwrap();
        }
    }
}

#[test]
fn blocks_are_evicted_on_demand() {
    let mut mgr = make_manager_with_capacity(3);
    let old = mgr.allocate(1, TokenRange::new(0, 64)).unwrap();
    let young = mgr.allocate(2, TokenRange::new(0, 64)).unwrap();
    mgr.increment_ref(young).unwrap();
    assert_eq!(mgr.evict_one(), Some((EvictionTier::B, old)));
    assert_eq!(mgr.used_blocks(), 1);
    assert!(mgr.primary_ptr(old).is_none());
    assert_eq!(mgr.evict_one(), None, "the block that is left is shared");
    assert_eq!(mgr.used_blocks(), 1);
}

#[test]
fn a_new_manager_starts_out_cleared() {
    let mut mgr = TesseraBlockManager::new(fp8_cfg(), 32 * 1024 * 1024).unwrap();
    let id = mgr.allocate(1, TokenRange::new(0, 64)).unwrap();
    let ptr = mgr.primary_ptr(id).unwrap();
    assert_eq!(ptr.region(), 0);
    assert_eq!(mgr.rope_ptr(id).unwrap().region(), 1);
    assert_eq!(mgr.fp8_scales_ptr(id).unwrap().region(), 2);
    let payload = mgr.export_payload(id).unwrap();
    assert!(payload.c_kv.iter().all(|&b| b == 0));
    assert!(payload.k_rope.iter().all(|&b| b == 0));
    assert!(payload.fp8_scales.unwrap().iter().all(|&b| b == 0));
}

#[test]
fn the_next_victim_is_announced() {
    let mut mgr = make_manager_with_capacity(2);
    let sealed = mgr.allocate(1, TokenRange::new(0, 64)).unwrap();
    let plain = mgr.allocate(2, TokenRange::new(0, 64)).unwrap();
    assert_eq!(mgr.eviction_candidate(), Some((EvictionTier::B, sealed)));
    mgr.seal(sealed).unwrap();
    assert_eq!(mgr.eviction_candidate(), Some((EvictionTier::B, plain)));
    mgr.increment_ref(plain).unwrap();
    assert_eq!(mgr.eviction_candidate(), Some((EvictionTier::B, sealed)));
    mgr.increment_ref(sealed).unwrap();
    assert_eq!(mgr.eviction_candidate(), None);
}

#[test]
fn tiers_follow_references_and_indexing() {
    let fresh = BlockMeta::fresh(BlockId(0), 1, TokenRange::new(0, 64), CkvDtype::Bf16, 0);
    let with = |ref_count, indexed| BlockMeta {
        ref_count,
        indexed,
        ..fresh
    };
    assert_eq!(eviction_tier(&with(0, true)), Some(EvictionTier::A));
    assert_eq!(eviction_tier(&with(1, false)), Some(EvictionTier::B));
    assert_eq!(eviction_tier(&with(1, true)), Some(EvictionTier::C));
    assert_eq!(eviction_tier(&with(2, false)), None);
    assert!(EvictionTier::A.precedes(EvictionTier::B));
    assert!(EvictionTier::B.precedes(EvictionTier::C));
    assert!(!EvictionTier::C.precedes(EvictionTier::C));
    assert_eq!(EvictionTier::A.label(), "a");
    assert_eq!(EvictionTier::B.label(), "b");
    assert_eq!(EvictionTier::C.label(), "c");
}

#[test]
fn an_evicted_block_leaves_the_index() {
    let mut mgr = make_manager_with_capacity(1);
    let a = mgr.allocate(1, TokenRange::new(0, 64)).unwrap();
    mgr.fill_primary_test_pattern(a, 3).unwrap();
    let hash = mgr.seal(a).unwrap().content_hash;
    assert_eq!(mgr.indexed_block(hash), Some(a));
    let b = mgr.allocate(2, TokenRange::new(0, 64)).unwrap();
    assert_ne!(b, a);
    assert_eq!(mgr.indexed_block(hash), None);
    assert_eq!(mgr.request_blocks(2), vec![b.raw()]);
}

#[test]
fn a_late_free_of_an_evicted_block_changes_nothing() {
    let mut mgr = make_manager_with_capacity(1);
    let lost = mgr.allocate(1, TokenRange::new(0, 64)).unwrap();
    let mut current = lost;
    for req in 2..20 {
        current = mgr.allocate(req, TokenRange::new(0, 64)).unwrap();
        mgr.fill_primary_test_pattern(current, req as u8).unwrap();
    }
    assert_ne!(current, lost);
    mgr.free(lost).unwrap();
    assert_eq!(mgr.used_blocks(), 1);
    assert!(matches!(
        mgr.export_payload(lost),
        Err(TesseraError::UnknownBlock(_))
    ));
    assert_eq!(primary_of(&mut mgr, current), vec![19; 16384]);
    assert_eq!(mgr.release_request(1), 0);
}

#[test]
fn a_freed_slot_is_handed_out_under_its_number() {
    let mut mgr = make_manager_with_capacity(3);
    let a = mgr.allocate(1, TokenRange::new(0, 64)).unwrap();
    let b = mgr.allocate(1, TokenRange::new(0, 64)).unwrap();
    mgr.free(a).unwrap();
    assert_eq!(mgr.allocate(2, TokenRange::new(0, 64)).unwrap(), a);
    assert_eq!((a, b), (BlockId(2), BlockId(1)));
}

// ---- construction

#[test]
fn singleton_world_matches_legacy_new() {
    let mgr = TesseraBlockManager::new(small_cfg(), 16 * 1024 * 1024).unwrap();
    assert_eq!(mgr.rank(), RankId::zero());
    assert_eq!(mgr.world().size, 1);
    assert!(matches!(mgr.world().topology, Topology::SingleNode));
}

#[test]
fn new_with_world_stores_rank_and_world() {
    let world = Arc::new(World::new(RankId(2), 4, Topology::SingleNode).unwrap());
    let mgr = TesseraBlockManager::new_with_world(
        small_cfg(),
        16 * 1024 * 1024,
        RankId(2),
        Arc::clone(&world),
    )
    .unwrap();
    assert_eq!(mgr.rank(), RankId(2));
    assert_eq!(mgr.world().size, 4);
    assert!(Arc::ptr_eq(mgr.world(), &world));
}

#[test]
fn rejects_rank_out_of_range() {
    let world = Arc::new(World::new(RankId(0), 4, Topology::SingleNode).unwrap());
    let err =
        TesseraBlockManager::new_with_world(small_cfg(), 16 * 1024 * 1024, RankId(99), world)
            .expect_err("rank 99 in a world of size 4 must fail");
    assert!(matches!(err, TesseraError::InvalidConfig(_)));
}

#[test]
fn global_id_combines_rank_and_block() {
    let world = Arc::new(World::new(RankId(3), 4, Topology::SingleNode).unwrap());
    let mut mgr =
        TesseraBlockManager::new_with_world(small_cfg(), 16 * 1024 * 1024, RankId(3), world)
            .unwrap();
    let bid = mgr.allocate(1, TokenRange::new(0, 64)).unwrap();
    let gid: GlobalBlockId = mgr.global_id(bid);
    assert_eq!(gid.rank, RankId(3));
    assert_eq!(gid.block, bid);
    assert!(gid.to_string().starts_with("r3:b"));
}

#[test]
fn a_budget_below_one_block_is_refused() {
    let err = TesseraBlockManager::new(small_cfg(), 20_543).unwrap_err();
    assert_eq!(
        err.to_string(),
        "invalid configuration: memory_bytes=20543 too small for at least one block of 20544 bytes"
    );
    let world = Arc::new(World::singleton());
    let err =
        TesseraBlockManager::new_with_world(small_cfg(), 1 << 20, RankId(1), world).unwrap_err();
    assert_eq!(
        err.to_string(),
        "invalid configuration: rank r1 is out of range for world size 1"
    );
    assert_eq!(
        TesseraBlockManager::new(small_cfg(), 20_544)
            .unwrap()
            .total_blocks(),
        1
    );
}

// ---- sealing

#[derive(Debug)]
struct CollidingHasher {
    fixed: u64,
}

impl ContentHasher for CollidingHasher {
    fn hash(&self, _bytes: &[u8]) -> u64 {
        self.fixed
    }
    fn name(&self) -> &'static str {
        "colliding-test-hasher"
    }
}

fn make_colliding_manager() -> TesseraBlockManager<CpuMockBackend, CollidingHasher> {
    let cfg = small_cfg();
    let per_block = cfg.total_block_bytes();
    TesseraBlockManager::with_backend(
        cfg,
        per_block * 16,
        CpuMockBackend::new(),
        CollidingHasher { fixed: 0xDEADBEEF },
    )
    .expect("manager")
}

#[test]
fn seal_rejects_dedup_when_bytes_differ_under_hash_collision() {
    let mut mgr = make_colliding_manager();

    let a = mgr.allocate(1, TokenRange::new(0, 64)).unwrap();
    mgr.fill_primary_test_pattern(a, 0xAA).unwrap();
    let seal_a = mgr.seal(a).unwrap();
    assert!(!seal_a.was_dedup);
    assert_eq!(seal_a.canonical_block, a);

    // Different bytes, but the hasher returns the same hash.
    let b = mgr.allocate(2, TokenRange::new(0, 64)).unwrap();
    mgr.fill_primary_test_pattern(b, 0xBB).unwrap();
    let seal_b = mgr.seal(b).unwrap();

    assert!(
        !seal_b.was_dedup,
        "byte-different blocks must not dedup even on hash collision"
    );
    assert_ne!(
        seal_b.canonical_block, a,
        "B must remain a distinct canonical block"
    );

    assert!(mgr.primary_ptr(a).is_some());
    assert!(mgr.primary_ptr(seal_b.canonical_block).is_some());

    // The collision shows: the hash is the same, and the index keeps the first block.
    assert_eq!(seal_a.content_hash, seal_b.content_hash);
    assert_eq!(mgr.indexed_block(0xDEADBEEF), Some(a));
}

#[test]
fn seal_still_dedups_when_bytes_match() {
    let mut mgr = make_colliding_manager();

    let a = mgr.allocate(1, TokenRange::new(0, 64)).unwrap();
    mgr.fill_primary_test_pattern(a, 0x42).unwrap();
    let seal_a = mgr.seal(a).unwrap();
    assert!(!seal_a.was_dedup);

    let b = mgr.allocate(2, TokenRange::new(0, 64)).unwrap();
    mgr.fill_primary_test_pattern(b, 0x42).unwrap();
    let seal_b = mgr.seal(b).unwrap();

    assert!(seal_b.was_dedup);
    assert_eq!(seal_b.canonical_block, seal_a.canonical_block);
}

#[test]
fn first_seal_records_canonical_block() {
    let mut mgr = TesseraBlockManager::new(small_cfg(), 16 * 1024 * 1024).unwrap();
    let id = mgr.allocate(1, TokenRange::new(0, 64)).unwrap();
    mgr.fill_primary_test_pattern(id, 0xAA).unwrap();
    let out = mgr.seal(id).unwrap();
    assert!(!out.was_dedup);
    assert_eq!(out.canonical_block, id);
}

#[test]
fn second_seal_with_identical_bytes_dedups() {
    let mut mgr = TesseraBlockManager::new(small_cfg(), 16 * 1024 * 1024).unwrap();
    let a = mgr.allocate(1, TokenRange::new(0, 64)).unwrap();
    let b = mgr.allocate(2, TokenRange::new(0, 64)).unwrap();
    mgr.fill_primary_test_pattern(a, 0xCC).unwrap();
    mgr.fill_primary_test_pattern(b, 0xCC).unwrap();

    let first = mgr.seal(a).unwrap();
    assert!(!first.was_dedup);

    let second = mgr.seal(b).unwrap();
    assert!(second.was_dedup);
    assert_eq!(second.canonical_block, a);
    // The duplicate must have been returned to the free pool.
    assert_eq!(mgr.used_blocks(), 1);
}

#[test]
fn different_bytes_do_not_dedup() {
    let mut mgr = TesseraBlockManager::new(small_cfg(), 16 * 1024 * 1024).unwrap();
    let a = mgr.allocate(1, TokenRange::new(0, 64)).unwrap();
    let b = mgr.allocate(2, TokenRange::new(0, 64)).unwrap();
    mgr.fill_primary_test_pattern(a, 0x11).unwrap();
    mgr.fill_primary_test_pattern(b, 0x22).unwrap();

    assert!(!mgr.seal(a).unwrap().was_dedup);
    assert!(!mgr.seal(b).unwrap().was_dedup);
    assert_eq!(mgr.used_blocks(), 2);
}

#[test]
fn seal_dedup_is_consistent() {
    for data_byte in 0u8..=255 {
        let mut mgr = make_manager_with_capacity(4);
        let b1 = mgr.allocate(1, TokenRange::new(0, 64)).unwrap();
        mgr.fill_primary_test_pattern(b1, data_byte).unwrap();
        let out1 = mgr.seal(b1).unwrap();
        assert!(!out1.was_dedup, "first seal must not dedup");

        let b2 = mgr.allocate(2, TokenRange::new(0, 64)).unwrap();
        mgr.fill_primary_test_pattern(b2, data_byte).unwrap();
        let out2 = mgr.seal(b2).unwrap();
        assert!(out2.was_dedup, "second seal must dedup");
        assert_eq!(out2.canonical_block, out1.canonical_block);
        assert_eq!(out2.content_hash, out1.content_hash, "hashes must match");
        assert_eq!(mgr.used_blocks(), 1, "duplicate must be freed");

        // One reference from the allocation, one from the duplicate.
        mgr.free(out1.canonical_block).unwrap();
        mgr.free(out1.canonical_block).unwrap();
        assert_eq!(mgr.used_blocks(), 0);
    }
}

#[test]
fn the_content_hash_is_xxh3_of_the_primary_bytes() {
    let mut mgr = make_manager_with_capacity(1);
    let id = mgr.allocate(1, TokenRange::new(0, 64)).unwrap();
    mgr.fill_primary_test_pattern(id, 0x5A).unwrap();
    let out = mgr.seal(id).unwrap();
    assert_eq!(
        out.content_hash,
        xxhash_rust::xxh3::xxh3_64(&vec![0x5A; 16384])
    );
    assert_eq!(mgr.block_meta(id).unwrap().content_hash, out.content_hash);
}

#[test]
fn sealing_a_registered_block_again_changes_nothing() {
    let mut mgr = make_manager_with_capacity(2);
    let id = mgr.allocate(1, TokenRange::new(0, 64)).unwrap();
    let first = mgr.seal(id).unwrap();
    let again = mgr.seal(id).unwrap();
    assert_eq!(first, again);
    assert!(!again.was_dedup);
    assert_eq!(mgr.block_meta(id).unwrap().ref_count, 1);
    assert_eq!(mgr.used_blocks(), 1);
}

#[test]
fn xxh3_is_deterministic() {
    let h = Xxh3Hasher;
    let data = b"the quick brown fox";
    assert_eq!(h.hash(data), h.hash(data));
}

#[test]
fn different_inputs_differ() {
    let h = Xxh3Hasher;
    assert_ne!(h.hash(b"abc"), h.hash(b"abd"));
}

#[test]
fn xxh3_of_nothing_is_known() {
    let h = Xxh3Hasher::default();
    assert_eq!(h.hash(b""), 0x2D06_8005_38D3_94C2);
    assert_eq!(h.name(), "xxh3");
}

#[test]
fn cuda_hasher_stub_is_deterministic() {
    let payload = vec![0xABu8; 128];
    let h = WeightedSumHasher;
    assert_eq!(
        h.hash(&payload),
        h.hash(&payload),
        "stub hash must be deterministic"
    );
    assert_ne!(
        h.hash(&payload),
        0,
        "stub hash must be non-zero for non-trivial input"
    );
    assert_eq!(h.name(), "cuda-xxh3-stub");
}

#[test]
fn cuda_hasher_stub_varies_with_input() {
    let h = WeightedSumHasher;
    assert_ne!(h.hash(&[0xABu8; 128]), h.hash(&[0xCDu8; 128]));
    assert_eq!(h.hash(&[10, 20, 30]), 10 + 2 * 20 + 3 * 30);
}

#[test]
fn hashing_device_memory_hashes_its_bytes() {
    let mut be = CpuMockBackend::new();
    let p = be
        .alloc_region(128, RegionKind::Primary)
        .unwrap();
    be.fill_pattern(p, 0xAB, 128).unwrap();
    let h = WeightedSumHasher;
    assert_eq!(
        h.hash_device(&be, p, 128).unwrap(),
        h.hash(&[0xABu8; 128])
    );
    assert!(h.hash_device(&be, p, 129).is_err());
}

// ---- copy-on-write

#[test]
fn cow_fork_produces_independent_block() {
    let mut mgr = TesseraBlockManager::new(small_cfg(), 16 * 1024 * 1024).unwrap();
    let original = mgr.allocate(1, TokenRange::new(0, 64)).unwrap();
    mgr.fill_primary_test_pattern(original, 0x01).unwrap();

    let seal_a = mgr.seal(original).unwrap();
    assert!(!seal_a.was_dedup);

    let forked = mgr.cow_fork(original, 2).unwrap();
    assert_ne!(forked, original);

    mgr.fill_primary_test_pattern(forked, 0xFF).unwrap();

    let seal_b = mgr.seal(forked).unwrap();
    assert!(!seal_b.was_dedup);
    assert_ne!(seal_a.content_hash, seal_b.content_hash);
}

#[test]
fn cow_fork_is_isolated() {
    for byte_a in [0u8, 1, 63, 127] {
        for byte_b in [128u8, 200, 255] {
            let mut mgr = make_manager_with_capacity(4);
            let original = mgr.allocate(1, TokenRange::new(0, 64)).unwrap();
            mgr.fill_primary_test_pattern(original, byte_a).unwrap();
            let hash_before = mgr.seal(original).unwrap().content_hash;

            let forked = mgr.cow_fork(original, 2).unwrap();
            assert_eq!(primary_of(&mut mgr, forked), vec![byte_a; 16384]);
            mgr.fill_primary_test_pattern(forked, byte_b).unwrap();
            let out_forked = mgr.seal(forked).unwrap();
            assert_ne!(out_forked.content_hash, hash_before);
            assert_eq!(primary_of(&mut mgr, original), vec![byte_a; 16384]);
            assert_eq!(mgr.seal(original).unwrap().content_hash, hash_before);
            assert_eq!(mgr.block_meta(original).unwrap().ref_count, 1);
            assert_eq!(mgr.block_meta(forked).unwrap().req_id, Some(2));
        }
    }
}

#[test]
fn a_fork_never_evicts_its_source() {
    let mut mgr = make_manager_with_capacity(1);
    let only = mgr.allocate(1, TokenRange::new(0, 64)).unwrap();
    let err = mgr.cow_fork(only, 2).unwrap_err();
    assert!(matches!(
        err,
        TesseraError::OutOfBlocks { used: 1, total: 1 }
    ));
    assert_eq!(mgr.block_meta(only).unwrap().ref_count, 1);
}

// ---- payloads and scales

#[test]
fn payload_roundtrip_preserves_content_hash() {
    let world = Arc::new(World::new(RankId(0), 1, Topology::SingleNode).unwrap());
    let mut mgr =
        TesseraBlockManager::new_with_world(small_cfg(), 16 * 1024 * 1024, RankId(0), world)
            .unwrap();
    let bid = mgr.allocate(1, TokenRange::new(0, 64)).unwrap();
    mgr.fill_primary_test_pattern(bid, 0xC3).unwrap();
    let payload = mgr.export_payload(bid).unwrap();
    let bid2 = mgr
        .import_payload(2, TokenRange::new(0, 64), &payload)
        .unwrap();
    let payload2 = mgr.export_payload(bid2).unwrap();
    assert_eq!(payload.c_kv, payload2.c_kv);
    assert_eq!(payload.k_rope, payload2.k_rope);
}

#[test]
fn import_checks_the_length_of_the_primary_part() {
    let mut mgr = make_manager_with_capacity(2);
    let short = BlockPayload {
        c_kv: vec![1, 2, 3],
        k_rope: vec![],
        fp8_scales: None,
    };
    let err = mgr
        .import_payload(1, TokenRange::new(0, 64), &short)
        .unwrap_err();
    assert_eq!(
        err.to_string(),
        "invalid configuration: import_payload: c_kv length 3 doesn't match \
         primary_block_bytes 16384"
    );
    assert_eq!(mgr.used_blocks(), 0);
}

#[test]
fn import_keeps_every_part() {
    let cfg = fp8_cfg();
    let budget = 4 * cfg.total_block_bytes();
    let mut mgr = TesseraBlockManager::new(cfg, budget).unwrap();
    let payload = BlockPayload {
        c_kv: (0..8192u32).map(|i| i as u8).collect(),
        k_rope: (0..4096u32).map(|i| (i / 7) as u8).collect(),
        fp8_scales: Some((0..16u8).collect()),
    };
    let other = mgr.allocate(1, TokenRange::new(0, 64)).unwrap();
    mgr.fill_primary_test_pattern(other, 9).unwrap();
    let id = mgr
        .import_payload(2, TokenRange::new(0, 64), &payload)
        .unwrap();
    let back = mgr.export_payload(id).unwrap();
    assert_eq!(back.c_kv, payload.c_kv);
    assert_eq!(back.k_rope, payload.k_rope);
    assert_eq!(back.fp8_scales, payload.fp8_scales);
    assert_eq!(primary_of(&mut mgr, other), vec![9; 8192]);
    assert_eq!(payload.clone().byte_len(), 8192 + 4096 + 16);
}

#[test]
fn scales_are_written_in_little_endian_order() {
    let cfg = fp8_cfg();
    let budget = 2 * cfg.total_block_bytes();
    let mut mgr = TesseraBlockManager::new(cfg, budget).unwrap();
    let id = mgr.allocate(1, TokenRange::new(0, 64)).unwrap();
    let scales = [1.0f32.to_bits(), 0x0403_0201, 0, u32::MAX];
    mgr.write_fp8_scales(id, &scales).unwrap();
    assert_eq!(
        mgr.export_payload(id).unwrap().fp8_scales.unwrap(),
        vec![0, 0, 0x80, 0x3f, 1, 2, 3, 4, 0, 0, 0, 0, 255, 255, 255, 255]
    );
    assert!(mgr.fp8_scales_ptr(id).is_some());
    let err = mgr.write_fp8_scales(id, &[0, 0]).unwrap_err();
    assert_eq!(
        err.to_string(),
        "invalid configuration: write_fp8_scales: expected 4 scales (one per layer), got 2"
    );
    assert!(matches!(
        mgr.write_fp8_scales(BlockId(1000), &scales),
        Err(TesseraError::UnknownBlock(1000))
    ));
}

#[test]
fn unscaled_blocks_ignore_scales() {
    let mut mgr = make_manager_with_capacity(1);
    let id = mgr.allocate(1, TokenRange::new(0, 64)).unwrap();
    mgr.write_fp8_scales(id, &[1, 2, 3, 4]).unwrap();
    assert!(mgr.fp8_scales_ptr(id).is_none());
    assert!(mgr.export_payload(id).unwrap().fp8_scales.is_none());
}

#[test]
fn handles_address_disjoint_slots() {
    let mut mgr = make_manager_with_capacity(3);
    let a = mgr.allocate(1, TokenRange::new(0, 64)).unwrap();
    let b = mgr.allocate(1, TokenRange::new(0, 64)).unwrap();
    let pa = mgr.primary_ptr(a).unwrap();
    let pb = mgr.primary_ptr(b).unwrap();
    assert_eq!(pa.region(), pb.region());
    assert_eq!(pa.region_offset(), u64::from(a.raw()) * 16384);
    assert_eq!(pb.region_offset(), u64::from(b.raw()) * 16384);
    assert_eq!(pa.len(), 3 * 16384 - pa.region_offset());
    let ra = mgr.rope_ptr(a).unwrap();
    assert_ne!(ra.region(), pa.region());
    assert_eq!(ra.region_offset(), u64::from(a.raw()) * 4096);
    assert_eq!(mgr.config().num_layers, 4);
    assert_eq!(mgr.backend().name(), "cpu_mock");
}

// ---- reservations

#[test]
fn reservations_are_counted_down_and_given_back() {
    let mut mgr = make_manager_with_capacity(4);
    let t = mgr.reserve_incoming(7, 2).unwrap();
    assert_eq!(mgr.reservation(t), Some((7, 2)));
    assert_eq!(mgr.active_reservations(), 1);
    mgr.consume_reservation_slot(Some(t));
    assert_eq!(mgr.reservation(t), Some((7, 1)));
    mgr.consume_reservation_slot(None);
    mgr.consume_reservation_slot(Some(t));
    assert_eq!(mgr.reservation(t), None);
    assert_eq!(mgr.active_reservations(), 0);

    let u = mgr.reserve_incoming(8, 4).unwrap();
    assert_ne!(u, t);
    mgr.release_reservation_local(u).unwrap();
    assert_eq!(mgr.active_reservations(), 0);
    mgr.release_reservation_local(ReservationToken(12345)).unwrap();
}

#[test]
fn reserving_evicts_what_it_may() {
    let mut mgr = make_manager_with_capacity(3);
    let pinned = mgr.allocate(1, TokenRange::new(0, 64)).unwrap();
    mgr.increment_ref(pinned).unwrap();
    mgr.allocate(2, TokenRange::new(0, 64)).unwrap();
    mgr.allocate(3, TokenRange::new(0, 64)).unwrap();
    mgr.reserve_incoming(9, 2).unwrap();
    assert_eq!(mgr.used_blocks(), 1);
    assert!(mgr.block_meta(pinned).is_some());
    let err = mgr.reserve_incoming(9, 3).unwrap_err();
    assert!(matches!(
        err,
        TesseraError::OutOfBlocks { used: 1, total: 3 }
    ));
}

#[test]
fn tokens_of_different_ranks_differ() {
    let token = |rank: u32| {
        let world = Arc::new(World::new(RankId(rank), 4, Topology::SingleNode).unwrap());
        let mut mgr =
            TesseraBlockManager::new_with_world(small_cfg(), 1 << 20, RankId(rank), world).unwrap();
        mgr.reserve_incoming(1, 1).unwrap()
    };
    assert_ne!(token(0), token(1));
    assert_eq!(token(2), token(2));
    assert_eq!(token(3).raw() >> 48, 3);
    assert_eq!(ReservationToken(17).to_string(), "tok:17");
}

fn payload_for(mgr: &TesseraBlockManager, byte: u8) -> BlockPayload {
    BlockPayload {
        c_kv: vec![byte; mgr.config().primary_block_bytes() as usize],
        k_rope: vec![byte; mgr.config().rope_block_bytes() as usize],
        fp8_scales: None,
    }
}

#[test]
fn reserved_slots_are_pinned() {
    let mut mgr = TesseraBlockManager::new(small_cfg(), 3 * 20544).unwrap();
    assert_eq!(mgr.total_blocks(), 3);
    assert_eq!(mgr.reserve_incoming(1, 3).unwrap(), ReservationToken(1));
    assert!(matches!(
        mgr.reserve_incoming(2, 1).unwrap_err(),
        TesseraError::OutOfBlocks { used: 0, total: 3 }
    ));
    assert!(matches!(
        mgr.allocate(2, TokenRange::new(0, 64)).unwrap_err(),
        TesseraError::OutOfBlocks { used: 0, total: 3 }
    ));
    mgr.release_reservation_local(ReservationToken(1)).unwrap();
    assert!(mgr.reserve_incoming(2, 1).is_ok());
    mgr.allocate(2, TokenRange::new(0, 64)).unwrap();
    mgr.allocate(2, TokenRange::new(0, 64)).unwrap();
    // The next allocation finds a free slot, but it is reserved: a block is evicted instead.
    mgr.allocate(2, TokenRange::new(0, 64)).unwrap();
    assert_eq!(mgr.used_blocks(), 2);
}

#[test]
fn forks_leave_reserved_slots_alone() {
    let mut mgr = make_manager_with_capacity(2);
    let block = mgr.allocate(1, TokenRange::new(0, 64)).unwrap();
    mgr.reserve_incoming(9, 1).unwrap();
    assert!(matches!(
        mgr.cow_fork(block, 2).unwrap_err(),
        TesseraError::OutOfBlocks { used: 1, total: 2 }
    ));
    assert!(mgr.block_meta(block).is_some());
}

#[test]
fn arriving_blocks_use_up_their_reservation() {
    let mut mgr = make_manager_with_capacity(3);
    let token = mgr.reserve_incoming(7, 2).unwrap();
    let other = mgr.reserve_incoming(8, 1).unwrap();
    let payload = payload_for(&mgr, 0x5A);

    // A block of request 8 uses the reservation of request 8, although that of 7 is older.
    assert_eq!(mgr.claim(8), Some(other));
    mgr.import_payload(8, TokenRange::new(0, 64), &payload).unwrap();
    assert_eq!(mgr.reservation(other), None);
    assert_eq!(mgr.reservation(token), Some((7, 2)));

    // A request without a reservation uses the oldest one.
    assert_eq!(mgr.claim(99), Some(token));
    mgr.import_payload(99, TokenRange::new(0, 64), &payload).unwrap();
    assert_eq!(mgr.reservation(token), Some((7, 1)));

    // Only the remainder is surrendered.
    mgr.release_reservation_local(token).unwrap();
    assert_eq!(mgr.used_blocks(), 2);
    mgr.allocate(1, TokenRange::new(0, 64)).unwrap();
    assert_eq!(mgr.used_blocks(), 3);
    assert_eq!(mgr.claim(99), None);
}

#[test]
fn a_refused_payload_uses_no_slot() {
    let mut mgr = make_manager_with_capacity(2);
    let token = mgr.reserve_incoming(7, 2).unwrap();
    let short = BlockPayload { c_kv: vec![1], k_rope: vec![], fp8_scales: None };
    assert!(mgr.import_payload(7, TokenRange::new(0, 64), &short).is_err());
    assert_eq!(mgr.reservation(token), Some((7, 2)));
    assert_eq!(mgr.used_blocks(), 0);
}

#[test]
fn making_room_tells_what_was_evicted() {
    let mut mgr = make_manager_with_capacity(2);
    assert_eq!(mgr.make_room(), None);
    let a = mgr.allocate(1, TokenRange::new(0, 64)).unwrap();
    let b = mgr.allocate(2, TokenRange::new(0, 64)).unwrap();
    assert_eq!(mgr.make_room(), Some((EvictionTier::B, a)));
    assert_eq!(mgr.make_room(), None);
    assert_eq!(mgr.make_capacity(2), vec![(EvictionTier::B, b.raw())]);
    assert_eq!(mgr.used_blocks(), 0);
    assert_eq!(mgr.make_capacity(3), vec![]);
}

#[test]
fn only_freed_blocks_are_counted() {
    let mut mgr = make_manager();
    let shared = mgr.allocate(1, TokenRange::new(0, 64)).unwrap();
    mgr.increment_ref(shared).unwrap();
    mgr.allocate(1, TokenRange::new(0, 64)).unwrap();
    mgr.allocate(2, TokenRange::new(0, 64)).unwrap();
    assert_eq!(mgr.release_request(1), 1);
    assert_eq!(mgr.used_blocks(), 2);
    assert_eq!(mgr.block_meta(shared).unwrap().ref_count, 1);
    assert_eq!(mgr.release_request(1), 0);
    assert_eq!(mgr.used_blocks(), 2);
}

#[test]
fn a_manager_of_its_own_lives_in_a_singleton_world() {
    let mgr = make_manager();
    assert_eq!(mgr.world().size, 1);
    assert_eq!(mgr.world().local, RankId(0));
    assert!(!mgr.world().topology.is_multi_node());
    assert_eq!(mgr.rank(), RankId(0));
}

// ---- a device that keeps record

#[derive(Debug)]
struct Recording {
    inner: CpuMockBackend,
    calls: Vec<(u64, RegionKind)>,
}

impl DeviceBackend for Recording {
    fn alloc_region(
        &mut self,
        bytes: u64,
        kind: RegionKind,
    ) -> Result<DevicePtr, BackendError> {
        self.calls.push((bytes, kind));
        self.inner.alloc_region(bytes, kind)
    }
    fn memcpy(&mut self, src: DevicePtr, dst: DevicePtr, n: u64) -> Result<(), BackendError> {
        self.inner.memcpy(src, dst, n)
    }
    fn read_bytes(&self, ptr: DevicePtr, len: usize) -> Result<Vec<u8>, BackendError> {
        self.inner.read_bytes(ptr, len)
    }
    fn fill_pattern(&mut self, ptr: DevicePtr, byte: u8, n: usize) -> Result<(), BackendError> {
        self.inner.fill_pattern(ptr, byte, n)
    }
    fn write_bytes(&mut self, ptr: DevicePtr, bytes: &[u8]) -> Result<(), BackendError> {
        self.inner.write_bytes(ptr, bytes)
    }
    fn name(&self) -> &'static str {
        "recording"
    }
}

#[test]
fn each_region_is_allocated_with_its_kind() {
    let device = || Recording { inner: CpuMockBackend::new(), calls: vec![] };
    let cfg = fp8_cfg();
    let (primary, rope, scale, per) = (
        cfg.primary_block_bytes(),
        cfg.rope_block_bytes(),
        cfg.fp8_scale_block_bytes(),
        cfg.total_block_bytes(),
    );
    let mgr = TesseraBlockManager::with_backend(cfg, 3 * per, device(), Xxh3Hasher).unwrap();
    assert_eq!(
        mgr.backend().calls,
        vec![
            (3 * primary, RegionKind::Primary),
            (3 * rope, RegionKind::Rope),
            (3 * scale, RegionKind::Fp8Scales),
        ]
    );
    let cfg = small_cfg();
    let per = cfg.total_block_bytes();
    let mgr = TesseraBlockManager::with_backend(cfg, 2 * per, device(), Xxh3Hasher).unwrap();
    assert_eq!(mgr.backend().calls.len(), 2);
}

// ---- a device that fails

#[derive(Debug)]
struct BrokenBackend;

impl DeviceBackend for BrokenBackend {
    fn alloc_region(
        &mut self,
        _bytes: u64,
        _kind: RegionKind,
    ) -> Result<DevicePtr, BackendError> {
        Err(BackendError::Other("no memory".to_string()))
    }
    fn memcpy(&mut self, _: DevicePtr, _: DevicePtr, _: u64) -> Result<(), BackendError> {
        Err(BackendError::Other("no memory".to_string()))
    }
    fn read_bytes(&self, _: DevicePtr, _: usize) -> Result<Vec<u8>, BackendError> {
        Err(BackendError::Other("no memory".to_string()))
    }
    fn fill_pattern(&mut self, _: DevicePtr, _: u8, _: usize) -> Result<(), BackendError> {
        Err(BackendError::Other("no memory".to_string()))
    }
    fn write_bytes(&mut self, _: DevicePtr, _: &[u8]) -> Result<(), BackendError> {
        Err(BackendError::Other("no memory".to_string()))
    }
    fn name(&self) -> &'static str {
        "broken"
    }
}

#[test]
fn a_device_failure_is_passed_on() {
    let err = TesseraBlockManager::with_backend(small_cfg(), 1 << 20, BrokenBackend, Xxh3Hasher)
        .unwrap_err();
    assert!(matches!(err, TesseraError::Backend(_)));
    assert_eq!(err.to_string(), "device backend error: no memory");
}
