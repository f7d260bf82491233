//! Per-request arenas.

use tessera::{CpuMockBackend, RequestArena, StateCache, StateCacheConfig, TesseraError};

fn cfg() -> StateCacheConfig {
    StateCacheConfig::for_v4(
        /* head_dim */ 512, /* rope_dim */ 64, /* num_layers */ 4,
        /* win */ 128, /* max_uncompressed_tail */ 127, /* max_requests */ 8,
    )
}

#[test]
fn allocation_lifecycle_is_idempotent() {
    let mut sc = StateCache::new(cfg(), CpuMockBackend::new()).unwrap();
    let (swa1, tail1) = sc.allocate_for_request(7).unwrap();
    let (swa2, tail2) = sc.allocate_for_request(7).unwrap();
    assert_eq!((swa1, tail1), (swa2, tail2));
    assert_eq!(sc.used(), 1);
    assert!(sc.release_request(7));
    assert_eq!(sc.used(), 0);
    // Releasing an unknown request is a no-op.
    assert!(!sc.release_request(42));
}

#[test]
fn exhausted_pool_returns_out_of_blocks() {
    let mut sc = StateCache::new(cfg(), CpuMockBackend::new()).unwrap();
    for r in 0..8 {
        sc.allocate_for_request(r).unwrap();
    }
    let err = sc.allocate_for_request(99).unwrap_err();
    assert!(matches!(err, TesseraError::OutOfBlocks { .. }));
}

#[test]
fn for_v4_config_matches_paper_constants() {
    // Per token bytes: 64*2 + (512-64)*1 = 576.
    let c = StateCacheConfig::for_v4(512, 64, 61, 128, 127, 4);
    assert_eq!(c.swa_bytes_per_request, 576 * 61 * 128);
    assert_eq!(c.tail_bytes_per_request, 576 * 61 * 127);
}

#[test]
fn request_arena_trait_is_object_safe() {
    let mut sc: Box<dyn RequestArena> =
        Box::new(StateCache::new(cfg(), CpuMockBackend::new()).unwrap());
    sc.acquire(1).unwrap();
    assert!(sc.release(1));
    assert_eq!(sc.name(), "v4_state_cache");
}

#[test]
fn arenas_of_two_requests_do_not_overlap() {
    let mut sc = StateCache::new(cfg(), CpuMockBackend::new()).unwrap();
    let (swa_a, tail_a) = sc.allocate_for_request(1).unwrap();
    let (swa_b, tail_b) = sc.allocate_for_request(2).unwrap();
    assert_eq!(swa_a.region(), swa_b.region());
    assert_ne!(swa_a.region(), tail_a.region());
    assert_eq!(
        swa_b.region_offset().abs_diff(swa_a.region_offset()),
        sc.config().swa_bytes_per_request
    );
    assert_eq!(
        tail_b.region_offset().abs_diff(tail_a.region_offset()),
        sc.config().tail_bytes_per_request
    );
    assert_eq!(sc.ptrs_for(1), Some((swa_a, tail_a)));
    assert_eq!(sc.ptrs_for(3), None);
    assert_eq!(sc.utilization(), (2, 8));
    assert_eq!(sc.capacity(), 8);
}

#[test]
fn a_released_arena_is_handed_out_again() {
    let mut sc = StateCache::new(cfg(), CpuMockBackend::new()).unwrap();
    let first = sc.allocate_for_request(1).unwrap();
    sc.allocate_for_request(2).unwrap();
    assert!(sc.release_request(1));
    assert_eq!(sc.allocate_for_request(3).unwrap(), first);
}

#[test]
fn a_cache_without_slots_is_refused() {
    let none = StateCacheConfig {
        max_requests: 0,
        ..cfg()
    };
    let err = StateCache::new(none, CpuMockBackend::new()).unwrap_err();
    assert_eq!(
        err.to_string(),
        "invalid configuration: StateCacheConfig::max_requests must be > 0"
    );
    assert_eq!(
        cfg().total_bytes(),
        8 * (576 * 4 * 128 + 576 * 4 * 127)
    );
}

#[test]
fn empty_parts_still_get_a_region() {
    let slim = StateCacheConfig {
        swa_bytes_per_request: 0,
        tail_bytes_per_request: 16,
        max_requests: 2,
    };
    let mut sc = StateCache::new(slim, CpuMockBackend::new()).unwrap();
    let (swa, tail) = sc.allocate_for_request(5).unwrap();
    assert_eq!(swa.len(), 1);
    assert_eq!(tail.len(), 32);
}
