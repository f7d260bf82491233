//! What callers see: how the results of calls relate to their arguments and to each other.
//!
//! `call_ensures(f, args, r)` reads: a call of `f` with the arguments `args` returned `r`.

use vstd::prelude::*;

use crate::block::{BlockId, TokenRange, SHARED_SENTINEL};
use crate::block_manager::state;
use crate::block_manager::{self, laws, SealOutcome, TesseraBlockManager};
use crate::config::{self, CkvDtype, CompressionScheme, MlaBlockConfig};
use crate::content_hash::ContentHasher;
use crate::cross_agent::{self, CrossAgentShareTable};
use crate::device::disk::{DiskBackend, SwaCachingStrategy};
use crate::device::{self, CpuMockBackend, DeviceBackend, DevicePtr, RegionKind};
use crate::error::{BackendError, Result, TesseraError};
use crate::index::distributed::{DistributedSegmentIndex, FanOut};
use crate::index::labels::{self, LabelMap};
use crate::multiples;
use crate::pool;
use crate::rank::{LatencyTier, RankId, World};
use crate::sizing;
use crate::state_cache::{StateCache, StateCacheConfig};
use crate::transport::{BlockPayload, LatencyInjector, RankTransport, ReservationToken};

verus! {

// ---- configuration

/// The ratio of a configuration that stores full keys and values in BF16 differs from one by the
/// header alone.
pub proof fn ratio_of_uncompressed_blocks(
    c: MlaBlockConfig,
    num_heads: u32,
    head_dim: u32,
    r: (u64, u64),
)
    requires
        sizing::stores_mha(c, num_heads, head_dim),
        call_ensures(MlaBlockConfig::compression_ratio_vs_mha_bf16, (&c,), r),
    ensures
        r.1 == r.0 + 64,
{
    sizing::uncompressed_blocks_have_ratio_one(c, num_heads, head_dim);
}

/// A configuration is accepted if and only if it breaks no rule, and is kept as it was given.
pub proof fn accepted_configurations(
    scheme: CompressionScheme,
    num_layers: u32,
    tokens: u32,
    dtype: CkvDtype,
    device: i32,
    r: Result<MlaBlockConfig>,
)
    requires
        call_ensures(MlaBlockConfig::new, (scheme, num_layers, tokens, dtype, device), r),
    ensures
        num_layers == 0 || tokens == 0 ==> r is Err,
        scheme is DsaHierarchical ==> r is Err,
        scheme is MlaLatent && tokens != 64 ==> r is Err,
        r matches Ok(c) ==> c.scheme == scheme && c.num_layers == num_layers
            && c.block_size_tokens == tokens && c.ckv_dtype == dtype && c.device == device
            && c.schemes_per_layer is None,
{
    sizing::valid_configurations(scheme, num_layers, tokens);
}

/// The window and the tail of a state cache take the same number of bytes per token.
pub proof fn window_and_tail_cost_the_same(
    head_dim: u32,
    rope_dim: u32,
    layers: u32,
    window: u32,
    tail: u32,
    requests: u32,
    c: StateCacheConfig,
)
    requires
        call_ensures(
            StateCacheConfig::for_v4,
            (head_dim, rope_dim, layers, window, tail, requests),
            c,
        ),
    ensures
        c.swa_bytes_per_request * tail == c.tail_bytes_per_request * window,
        window == tail ==> c.swa_bytes_per_request == c.tail_bytes_per_request,
        c.max_requests == requests,
        window == 1 && rope_dim <= head_dim ==> c.swa_bytes_per_request == (head_dim + rope_dim)
            * layers,
{
    let b = StateCacheConfig::token_bytes(head_dim, rope_dim) * layers as nat;
    let w = window as nat;
    let t = tail as nat;
    assert((b * w) * t == (b * t) * w) by (nonlinear_arith);
    assert(b * 1 == b) by (nonlinear_arith);
}

// ---- labels and lookups

/// Resolving gives the pairs of a position and a block whose label stands there, by position.
pub proof fn resolving_gives_every_hit(
    m: LabelMap,
    given: Vec<u64>,
    hits: Vec<(usize, u32)>,
    i: usize,
    block: u32,
)
    requires
        call_ensures(LabelMap::resolve, (&m, &given), hits),
    ensures
        hits@.contains((i, block)) <==> i < given@.len() && m@.blocks.dom().contains(
            given@[i as int],
        ) && m@.blocks[given@[i as int]] == block,
        forall|a: int, b: int|
            0 <= a < b < hits@.len() ==> (#[trigger] hits@[a]).0 < (#[trigger] hits@[b]).0,
{
    assert(given@.len() == given.len());
    labels::every_position_is_resolved(m@, given@);
}

/// Labels that are given out one after the other differ.
pub proof fn labels_are_given_out_once(
    before: LabelMap,
    middle: LabelMap,
    after: LabelMap,
    first: u64,
    second: u64,
)
    requires
        before@.next < u64::MAX,
        exists|called: &mut LabelMap|
            {
                &&& *called == before
                &&& *final(called) == middle
                &&& #[trigger] call_ensures(LabelMap::next_label, (called,), first)
            },
        exists|called: &mut LabelMap|
            {
                &&& *called == middle
                &&& *final(called) == after
                &&& #[trigger] call_ensures(LabelMap::next_label, (called,), second)
            },
    ensures
        first < second,
        after@.blocks == before@.blocks,
{
}

/// What is left of the budget of a lookup goes down by the time that elapses, and a lookup that has
/// no time left at one moment has none later.
pub proof fn budgets_run_down(
    i: DistributedSegmentIndex,
    early: u128,
    late: u128,
    first: Option<FanOut>,
    second: Option<FanOut>,
)
    requires
        early <= late,
        call_ensures(DistributedSegmentIndex::plan_lookup, (&i, early), first),
        call_ensures(DistributedSegmentIndex::plan_lookup, (&i, late), second),
    ensures
        first is None ==> second is None,
        second matches Some(b) ==> first matches Some(a) && a.remaining + early == b.remaining + late
            && a.peers@ == b.peers@ && b.remaining > 0,
        first matches Some(a) ==> (second is None <==> a.remaining + early <= late),
{
}

/// A rank is reached from another as the other is from it.
pub proof fn tiers_are_mutual(a: World, b: World, there: LatencyTier, back: LatencyTier)
    requires
        a.topology == b.topology,
        call_ensures(World::peer_tier, (&a, b.local), there),
        call_ensures(World::peer_tier, (&b, a.local), back),
    ensures
        there == back,
{
    crate::rank::tiers_are_symmetric(a, b);
}

// ---- devices

/// What is written to a device is read back from it.
pub proof fn devices_keep_what_is_written<B: DeviceBackend>(
    before: B,
    after: B,
    ptr: DevicePtr,
    bytes: &[u8],
    len: usize,
    v: Vec<u8>,
)
    requires
        len == bytes@.len(),
        exists|called: &mut B|
            {
                &&& *called == before
                &&& *final(called) == after
                &&& #[trigger] call_ensures(
                    B::write_bytes,
                    (called, ptr, bytes),
                    Ok::<(), BackendError>(()),
                )
            },
        call_ensures(B::read_bytes, (&after, ptr, len), Ok::<Vec<u8>, BackendError>(v)),
    ensures
        v@ == bytes@,
{
    if bytes@.len() > 0 {
        device::read_after_write(before.regions(), ptr, bytes@);
    } else {
        assert(v@ =~= bytes@);
    }
}

/// Under an interval of `n` tokens a snapshot is asked for at the multiples of `n`, and nowhere
/// else.
pub proof fn snapshots_are_asked_for_at_multiples(d: DiskBackend, n: u32, token_pos: u32, r: bool)
    requires
        n > 0,
        d@.strategy == (SwaCachingStrategy::Periodic { checkpoint_interval_tokens: n }),
        call_ensures(DiskBackend::should_persist_swa, (&d, token_pos), r),
    ensures
        r <==> exists|k: nat| token_pos == #[trigger] (k * n),
{
    crate::device::disk::snapshots_fall_on_multiples(n, token_pos);
}

// ---- blocks

/// An allocation returns a block that was not there before. It is there afterwards, with one
/// reference, and belongs to the request.
pub proof fn allocating_returns_a_new_block<B: DeviceBackend, H: ContentHasher>(
    before: TesseraBlockManager<B, H>,
    after: TesseraBlockManager<B, H>,
    req: u64,
    range: TokenRange,
    id: BlockId,
)
    requires
        before.wf(),
        before@.pool.total <= 0x8000_0000,
        exists|called: &mut TesseraBlockManager<B, H>|
            {
                &&& *called == before
                &&& *final(called) == after
                &&& #[trigger] call_ensures(
                    TesseraBlockManager::<B, H>::allocate,
                    (called, req, range),
                    Ok::<BlockId, TesseraError>(id),
                )
            },
    ensures
        !before@.pool.live(id.0),
        after@.pool.live(id.0),
        after@.pool.metas[id.0].ref_count == 1,
        after@.pool.metas[id.0].req_id == Some(req),
        after@.pool.metas[id.0].token_range == range,
        after@.pool.blocks_of(req).contains(id.0),
        after@.memory == before@.memory,
{
    before.wf_implies_inv();
    let s = before@.pool;
    let dtype = before@.config.ckv_dtype;
    pool::laws::allocate_keeps_inv(s, req, range, dtype);
    let m = s.with_room();
    assert(m.free[m.free.len() - 1] == id.0);
    if s.live(id.0) {
        pool::behaviour::allocation_evicts_at_most_the_victim(s, req, range, dtype, id.0);
        if s.spare() <= 0 {
            pool::laws::evicted_block_is_absent(s, id.0, req, range, dtype);
        }
    }
    let t = s.allocate(req, range, dtype);
    let list = t.blocks_of(req);
    assert(list[list.len() - 1] == id.0);
}

/// Another reference is counted: the number that is returned is the block's count afterwards, one
/// more than before.
pub proof fn references_are_counted<B: DeviceBackend, H: ContentHasher>(
    before: TesseraBlockManager<B, H>,
    after: TesseraBlockManager<B, H>,
    id: BlockId,
    n: u32,
)
    requires
        before.wf(),
        exists|called: &mut TesseraBlockManager<B, H>|
            {
                &&& *called == before
                &&& *final(called) == after
                &&& #[trigger] call_ensures(
                    TesseraBlockManager::<B, H>::increment_ref,
                    (called, id),
                    Ok::<u32, TesseraError>(n),
                )
            },
    ensures
        after@.pool.metas[id.0].ref_count == n,
        before@.pool.metas[id.0].ref_count == n - 1,
{
}

/// Releasing a request returns how many blocks went: those that are no longer there.
pub proof fn released_blocks_are_counted<B: DeviceBackend, H: ContentHasher>(
    before: TesseraBlockManager<B, H>,
    after: TesseraBlockManager<B, H>,
    req: u64,
    n: u32,
)
    requires
        before.wf(),
        exists|called: &mut TesseraBlockManager<B, H>|
            {
                &&& *called == before
                &&& *final(called) == after
                &&& #[trigger] call_ensures(
                    TesseraBlockManager::<B, H>::release_request,
                    (called, req),
                    n,
                )
            },
    ensures
        before@.pool.metas.dom().len() - after@.pool.metas.dom().len() == n,
        after@.memory == before@.memory,
{
    before.wf_implies_inv();
    after.wf_implies_inv();
    pool::laws::used_counts_live_blocks(before@.pool);
    pool::laws::used_counts_live_blocks(after@.pool);
}

/// Sealing returns the block that holds the content from then on: it is there afterwards, with the
/// bytes of the sealed block. It is another block if and only if a duplicate was found, and then
/// the sealed block is gone.
pub proof fn sealing_returns_the_surviving_block<B: DeviceBackend, H: ContentHasher>(
    before: TesseraBlockManager<B, H>,
    after: TesseraBlockManager<B, H>,
    id: BlockId,
    outcome: SealOutcome,
)
    requires
        before.wf(),
        exists|called: &mut TesseraBlockManager<B, H>|
            {
                &&& *called == before
                &&& *final(called) == after
                &&& #[trigger] call_ensures(
                    TesseraBlockManager::<B, H>::seal,
                    (called, id),
                    Ok::<SealOutcome, TesseraError>(outcome),
                )
            },
    ensures
        after@.pool.live(outcome.canonical_block.0),
        after@.primary(outcome.canonical_block.0) == before@.primary(id.0),
        outcome.was_dedup <==> outcome.canonical_block != id,
        outcome.was_dedup <==> !after@.pool.live(id.0),
        outcome.content_hash == before.digest(before@.primary(id.0)),
        after@.memory == before@.memory,
{
    before.wf_implies_inv();
    laws::seal_never_mixes_contents(before@, id.0, outcome.content_hash);
}

/// Of two blocks with the same bytes, sealed one after the other under a hash that is new, the
/// first survives, and both seals return it.
pub proof fn equal_blocks_seal_to_one<B: DeviceBackend, H: ContentHasher>(
    before: TesseraBlockManager<B, H>,
    middle: TesseraBlockManager<B, H>,
    after: TesseraBlockManager<B, H>,
    a: BlockId,
    b: BlockId,
    first: SealOutcome,
    second: SealOutcome,
)
    requires
        before.wf(),
        a != b,
        before@.pool.live(a.0),
        before@.pool.live(b.0),
        before@.primary(a.0) == before@.primary(b.0),
        before@.pool.metas[a.0].ref_count < u32::MAX,
        !before@.pool.index.dom().contains(before.digest(before@.primary(a.0))),
        exists|called: &mut TesseraBlockManager<B, H>|
            {
                &&& *called == before
                &&& *final(called) == middle
                &&& #[trigger] call_ensures(
                    TesseraBlockManager::<B, H>::seal,
                    (called, a),
                    Ok::<SealOutcome, TesseraError>(first),
                )
            },
        exists|called: &mut TesseraBlockManager<B, H>|
            {
                &&& *called == middle
                &&& *final(called) == after
                &&& #[trigger] call_ensures(
                    TesseraBlockManager::<B, H>::seal,
                    (called, b),
                    Ok::<SealOutcome, TesseraError>(second),
                )
            },
    ensures
        first.canonical_block == a,
        !first.was_dedup,
        second.canonical_block == a,
        second.was_dedup,
        second.content_hash == first.content_hash,
        !after@.pool.live(b.0),
        after@.pool.metas[a.0].ref_count == before@.pool.metas[a.0].ref_count + 1,
{
    before.wf_implies_inv();
    let hash = before.digest(before@.primary(a.0));
    laws::second_seal_collapses(before@, a.0, b.0, hash);
    assert(middle@.primary(b.0) == before@.primary(b.0));
}

/// A fork is another block with the same bytes, and the block it was made from stays.
pub proof fn forking_returns_a_copy<B: DeviceBackend, H: ContentHasher>(
    before: TesseraBlockManager<B, H>,
    after: TesseraBlockManager<B, H>,
    id: BlockId,
    req: u64,
    new: BlockId,
)
    requires
        before.wf(),
        before@.pool.live(id.0) ==> before@.pool.metas[id.0].ref_count < u32::MAX,
        exists|called: &mut TesseraBlockManager<B, H>|
            {
                &&& *called == before
                &&& *final(called) == after
                &&& #[trigger] call_ensures(
                    TesseraBlockManager::<B, H>::cow_fork,
                    (called, id, req),
                    Ok::<BlockId, TesseraError>(new),
                )
            },
    ensures
        new != id,
        after@.pool.live(new.0),
        after@.pool.live(id.0),
        after@.pool.metas[new.0].req_id == Some(req),
        after@.pool.metas[new.0].ref_count == 1,
        after@.pool.metas[id.0].ref_count == before@.pool.metas[id.0].ref_count,
        after@.primary(new.0) == before@.primary(id.0),
        after@.rope(new.0) == before@.rope(id.0),
        laws::same_bytes_of(before@, after@, id.0),
{
    before.wf_implies_inv();
    let s = before@;
    pool::laws::retain_then_release(s.pool, id.0);
    pool::laws::allocation_spares_shared_blocks(
        s.pinned(id.0),
        req,
        s.pool.metas[id.0].token_range,
        s.config.ckv_dtype,
        id.0,
    );
    laws::fork_is_isolated(s, id.0, req, id.0);
}

/// What is imported is what an export of the new block returns.
pub proof fn imports_can_be_exported<B: DeviceBackend, H: ContentHasher>(
    before: TesseraBlockManager<B, H>,
    middle: TesseraBlockManager<B, H>,
    after: TesseraBlockManager<B, H>,
    req: u64,
    range: TokenRange,
    p: BlockPayload,
    id: BlockId,
    q: BlockPayload,
)
    requires
        before.wf(),
        laws::fits_block(before@, p),
        exists|called: &mut TesseraBlockManager<B, H>|
            {
                &&& *called == before
                &&& *final(called) == middle
                &&& #[trigger] call_ensures(
                    TesseraBlockManager::<B, H>::import_payload,
                    (called, req, range, &p),
                    Ok::<BlockId, TesseraError>(id),
                )
            },
        exists|called: &mut TesseraBlockManager<B, H>|
            {
                &&& *called == middle
                &&& *final(called) == after
                &&& #[trigger] call_ensures(
                    TesseraBlockManager::<B, H>::export_payload,
                    (called, id),
                    Ok::<BlockPayload, TesseraError>(q),
                )
            },
    ensures
        q.c_kv@ == p.c_kv@,
        q.k_rope@ == p.k_rope@,
        q.fp8_scales is Some <==> p.fp8_scales is Some,
        p.fp8_scales matches Some(scales) ==> q.fp8_scales->0@ == scales@,
        middle@.pool.metas[id.0].req_id == Some(req),
        middle@.pool.metas[id.0].token_range == range,
{
    before.wf_implies_inv();
    laws::import_round_trip(before@, req, range, p, id.0);
    block_manager::behaviour::imported_block_belongs_to_its_request(before@, req, range, p);
}

/// A block that was filled is exported full of that byte.
pub proof fn filled_blocks_are_exported_full<B: DeviceBackend, H: ContentHasher>(
    before: TesseraBlockManager<B, H>,
    middle: TesseraBlockManager<B, H>,
    after: TesseraBlockManager<B, H>,
    id: BlockId,
    byte: u8,
    q: BlockPayload,
    k: int,
)
    requires
        before.wf(),
        exists|called: &mut TesseraBlockManager<B, H>|
            {
                &&& *called == before
                &&& *final(called) == middle
                &&& #[trigger] call_ensures(
                    TesseraBlockManager::<B, H>::fill_primary_test_pattern,
                    (called, id, byte),
                    Ok::<(), TesseraError>(()),
                )
            },
        exists|called: &mut TesseraBlockManager<B, H>|
            {
                &&& *called == middle
                &&& *final(called) == after
                &&& #[trigger] call_ensures(
                    TesseraBlockManager::<B, H>::export_payload,
                    (called, id),
                    Ok::<BlockPayload, TesseraError>(q),
                )
            },
        0 <= k < q.c_kv@.len(),
    ensures
        q.c_kv@.len() == before@.config.primary_size(),
        q.c_kv@[k] == byte,
        q.k_rope@ == before@.rope(id.0),
{
    before.wf_implies_inv();
    let s = before@;
    let bytes = device::repeated(byte, s.config.primary_size());
    state::block_lies_in_its_regions(s, id.0);
    device::read_after_write(s.memory, s.primary_at(id.0), bytes);
    device::write_touches_nothing_else(
        s.memory,
        s.primary_at(id.0),
        bytes,
        s.rope_at(id.0),
        s.config.rope_size(),
    );
    assert(middle@.primary(id.0) == bytes);
    assert(middle@.rope(id.0) == s.rope(id.0));
}

/// The pool that a budget makes has as many blocks as fit the budget, all of them free.
pub proof fn budgets_are_used_up(config: MlaBlockConfig, memory_bytes: u64, r: Result<TesseraBlockManager>)
    requires
        call_ensures(TesseraBlockManager::new, (config, memory_bytes), r),
    ensures
        r matches Ok(m) ==> {
            &&& m@.pool.total * config.block_size() <= memory_bytes
            &&& memory_bytes < (m@.pool.total + 1) * config.block_size()
            &&& m@.pool.used() == 0
        },
        memory_bytes < config.block_size() ==> r is Err,
{
    block_manager::behaviour::budget_makes_what_fits(
        config,
        memory_bytes,
        memory_bytes as nat / config.block_size(),
    );
}

/// A block that was sealed first under its hash is found under it afterwards.
pub proof fn sealed_blocks_are_found<B: DeviceBackend, H: ContentHasher>(
    before: TesseraBlockManager<B, H>,
    after: TesseraBlockManager<B, H>,
    id: BlockId,
    outcome: SealOutcome,
    found: Option<BlockId>,
)
    requires
        before.wf(),
        !before@.pool.index.dom().contains(before.digest(before@.primary(id.0))),
        exists|called: &mut TesseraBlockManager<B, H>|
            {
                &&& *called == before
                &&& *final(called) == after
                &&& #[trigger] call_ensures(
                    TesseraBlockManager::<B, H>::seal,
                    (called, id),
                    Ok::<SealOutcome, TesseraError>(outcome),
                )
            },
        call_ensures(
            TesseraBlockManager::<B, H>::indexed_block,
            (&after, outcome.content_hash),
            found,
        ),
    ensures
        found == Some(id),
{
}

/// Freeing a block gives back what one reference or one allocation took: a block with other holders
/// stays, one without is gone and counts no longer.
pub proof fn freeing_gives_back<B: DeviceBackend, H: ContentHasher>(
    before: TesseraBlockManager<B, H>,
    after: TesseraBlockManager<B, H>,
    id: BlockId,
    r: Result<()>,
    used: u32,
    left: u32,
)
    requires
        before.wf(),
        before@.pool.live(id.0),
        exists|called: &mut TesseraBlockManager<B, H>|
            {
                &&& *called == before
                &&& *final(called) == after
                &&& #[trigger] call_ensures(TesseraBlockManager::<B, H>::free, (called, id), r)
            },
        call_ensures(TesseraBlockManager::<B, H>::used_blocks, (&before,), used),
        call_ensures(TesseraBlockManager::<B, H>::used_blocks, (&after,), left),
    ensures
        r is Ok,
        before@.pool.metas[id.0].ref_count == 1 ==> !after@.pool.live(id.0) && left == used - 1,
        before@.pool.metas[id.0].ref_count > 1 ==> after@.pool.metas[id.0].ref_count
            == before@.pool.metas[id.0].ref_count - 1 && left == used,
        after@.memory == before@.memory,
{
}

/// What is evicted is named: the block that is returned was there, with one holder, and is gone; no
/// other block goes.
pub proof fn evicting_names_the_block<B: DeviceBackend, H: ContentHasher>(
    before: TesseraBlockManager<B, H>,
    after: TesseraBlockManager<B, H>,
    r: Option<(pool::EvictionTier, BlockId)>,
    other: u32,
)
    requires
        before.wf(),
        exists|called: &mut TesseraBlockManager<B, H>|
            {
                &&& *called == before
                &&& *final(called) == after
                &&& #[trigger] call_ensures(TesseraBlockManager::<B, H>::evict_one, (called,), r)
            },
    ensures
        match r {
            Some((tier, id)) => {
                &&& before@.pool.live(id.0)
                &&& before@.pool.metas[id.0].ref_count == 1
                &&& tier is C <==> before@.pool.metas[id.0].indexed
                &&& tier is B <==> !before@.pool.metas[id.0].indexed
                &&& !after@.pool.live(id.0)
                &&& other != id.0 ==> after@.pool.live(other) == before@.pool.live(other)
            },
            None => {
                &&& after@ == before@
                &&& before@.pool.live(other) ==> before@.pool.metas[other].ref_count > 1
            },
        },
{
    before.wf_implies_inv();
    let s = before@.pool;
    match r {
        Some((_, id)) => {
            pool::behaviour::eviction_takes_the_victim_only(s, id.0, other, 0);
        },
        None => {
            pool::behaviour::eviction_needs_a_single_holder(s);
            if s.live(other) && s.metas[other].ref_count <= 1 {
                assert(s.live(other) && s.metas[other].ref_count == 1);
            }
        },
    }
}

/// A transfer is all or nothing. If it succeeds it returns the number of blocks that the request
/// had, and the request has none left; if it fails, every block keeps its references and its
/// bytes.
pub proof fn transfers_are_all_or_nothing<B: DeviceBackend, H: ContentHasher, T: RankTransport>(
    before: TesseraBlockManager<B, H>,
    after: TesseraBlockManager<B, H>,
    req: u64,
    target: RankId,
    r: Result<u32>,
    id: u32,
)
    requires
        before.wf(),
        req != SHARED_SENTINEL,
        before@.pool.blocks_of(req).len() <= u32::MAX,
        exists|called: &mut TesseraBlockManager<B, H>, transport: &mut T|
            {
                &&& *called == before
                &&& *final(called) == after
                &&& #[trigger] call_ensures(
                    TesseraBlockManager::<B, H>::transfer_request_to_rank::<T>,
                    (called, req, target, transport),
                    r,
                )
            },
    ensures
        match r {
            Ok(n) => {
                &&& n == before@.pool.blocks_of(req).len()
                &&& after@.pool.blocks_of(req).len() == 0
                &&& before@.pool.blocks_of(req).contains(id) ==> (after@.pool.live(id)
                    <==> before@.pool.metas[id].ref_count > 1)
                &&& !before@.pool.blocks_of(req).contains(id) ==> after@.pool.live(id)
                    == before@.pool.live(id)
                &&& after@.memory == before@.memory
            },
            Err(_) => {
                &&& after@.pool.blocks_of(req) == before@.pool.blocks_of(req)
                &&& after@.pool.live(id) == before@.pool.live(id)
                &&& before@.pool.live(id) ==> after@.pool.metas[id].ref_count
                    == before@.pool.metas[id].ref_count
                &&& laws::same_bytes_of(before@, after@, id)
            },
        },
{
    before.wf_implies_inv();
    let s = before@;
    match r {
        Ok(n) => {
            if n > 0 {
                block_manager::behaviour::committed_transfer_releases_the_request(
                    s,
                    after@,
                    req,
                    id,
                );
            }
        },
        Err(_) => {
            block_manager::behaviour::accesses_keep_the_blocks(s, after@, id, req);
        },
    }
}

/// A reservation that is given back leaves the slots as they were before it was made.
pub proof fn reservations_can_be_given_back<B: DeviceBackend, H: ContentHasher>(
    before: TesseraBlockManager<B, H>,
    middle: TesseraBlockManager<B, H>,
    after: TesseraBlockManager<B, H>,
    req: u64,
    count: u32,
    token: ReservationToken,
    r: Result<()>,
)
    requires
        before.wf(),
        !before@.pool.reservations.dom().contains(
            pool::state::token_of(before@.rank.0, before@.pool.next_reservation),
        ),
        exists|called: &mut TesseraBlockManager<B, H>|
            {
                &&& *called == before
                &&& *final(called) == middle
                &&& #[trigger] call_ensures(
                    TesseraBlockManager::<B, H>::reserve_incoming,
                    (called, req, count),
                    Ok::<ReservationToken, TesseraError>(token),
                )
            },
        exists|called: &mut TesseraBlockManager<B, H>|
            {
                &&& *called == middle
                &&& *final(called) == after
                &&& #[trigger] call_ensures(
                    TesseraBlockManager::<B, H>::release_reservation_local,
                    (called, token),
                    r,
                )
            },
    ensures
        middle@.pool.held() == before@.pool.held() + count,
        middle@.pool.reservations[token.0] == (req, count),
        r is Ok,
        after@.pool.held() == before@.pool.held(),
        after@.pool.reservations == before@.pool.reservations,
{
    before.wf_implies_inv();
    middle.wf_implies_inv();
    let s = before@.pool;
    block_manager::behaviour::granted_reservations_hold_their_slots(
        before@,
        middle@,
        req,
        count,
        Ok(token),
    );
    pool::laws::unreserve_keeps_inv(middle@.pool, token.0);
    pool::laws::with_capacity_keeps_reservations(s, count);
    assert(after@.pool.reservations =~= s.reservations);
}

/// Scale factors that were written are exported, one per layer in order.
pub proof fn scales_can_be_exported<B: DeviceBackend, H: ContentHasher>(
    before: TesseraBlockManager<B, H>,
    middle: TesseraBlockManager<B, H>,
    after: TesseraBlockManager<B, H>,
    id: BlockId,
    words: &[u32],
    q: BlockPayload,
    layer: int,
)
    requires
        before.wf(),
        exists|called: &mut TesseraBlockManager<B, H>|
            {
                &&& *called == before
                &&& *final(called) == middle
                &&& #[trigger] call_ensures(
                    TesseraBlockManager::<B, H>::write_fp8_scales,
                    (called, id, words),
                    Ok::<(), TesseraError>(()),
                )
            },
        exists|called: &mut TesseraBlockManager<B, H>|
            {
                &&& *called == middle
                &&& *final(called) == after
                &&& #[trigger] call_ensures(
                    TesseraBlockManager::<B, H>::export_payload,
                    (called, id),
                    Ok::<BlockPayload, TesseraError>(q),
                )
            },
        0 <= layer < words@.len(),
    ensures
        words@.len() == before@.config.num_layers,
        q.fp8_scales is Some <==> before@.config.scale_size() > 0,
        q.fp8_scales matches Some(scales) ==> scales@[4 * layer] + 0x100 * scales@[4 * layer + 1]
            + 0x1_0000 * scales@[4 * layer + 2] + 0x100_0000 * scales@[4 * layer + 3]
            == words@[layer],
        q.c_kv@ == before@.primary(id.0),
{
    before.wf_implies_inv();
    if before@.scales_base is Some {
        block_manager::behaviour::scales_are_stored_by_layer(before@, id.0, words@, layer);
    }
}

// ---- other tables

/// A request that asks again for its arena gets the same handles, and nobody else's handles change.
pub proof fn arenas_are_stable<B: DeviceBackend>(
    before: StateCache<B>,
    middle: StateCache<B>,
    after: StateCache<B>,
    req: u64,
    other: u64,
    first: (DevicePtr, DevicePtr),
    second: Result<(DevicePtr, DevicePtr)>,
)
    requires
        before.wf(),
        other != req,
        exists|called: &mut StateCache<B>|
            {
                &&& *called == before
                &&& *final(called) == middle
                &&& #[trigger] call_ensures(
                    StateCache::<B>::allocate_for_request,
                    (called, req),
                    Ok::<(DevicePtr, DevicePtr), TesseraError>(first),
                )
            },
        exists|called: &mut StateCache<B>|
            {
                &&& *called == middle
                &&& *final(called) == after
                &&& #[trigger] call_ensures(
                    StateCache::<B>::allocate_for_request,
                    (called, req),
                    second,
                )
            },
    ensures
        second == Ok::<(DevicePtr, DevicePtr), TesseraError>(first),
        after@ == middle@,
        middle@.held(other) == before@.held(other),
        middle@.used() == before@.used() + (if before@.held(req) is Some {
            0int
        } else {
            1
        }),
{
    before.wf_implies_inv();
    middle.wf_implies_inv();
    assert(middle@.active.dom().contains(req));
}

/// A cache refuses an arena only if every slot is in use.
pub proof fn full_caches_refuse<B: DeviceBackend>(
    before: StateCache<B>,
    after: StateCache<B>,
    req: u64,
    r: Result<(DevicePtr, DevicePtr)>,
    used: u32,
    capacity: u32,
)
    requires
        before.wf(),
        exists|called: &mut StateCache<B>|
            {
                &&& *called == before
                &&& *final(called) == after
                &&& #[trigger] call_ensures(
                    StateCache::<B>::allocate_for_request,
                    (called, req),
                    r,
                )
            },
        call_ensures(StateCache::<B>::used, (&before,), used),
        call_ensures(StateCache::<B>::capacity, (&before,), capacity),
    ensures
        r is Err <==> before@.held(req) is None && used == capacity,
        r is Err ==> after@ == before@,
{
}

/// Releasing a request names one block per share that it held, in the order in which it shared
/// them, and takes it off every block.
pub proof fn released_shares_are_named(
    before: CrossAgentShareTable,
    after: CrossAgentShareTable,
    req: u64,
    freed: Vec<BlockId>,
    id: u32,
)
    requires
        before.wf(),
        exists|called: &mut CrossAgentShareTable|
            {
                &&& *called == before
                &&& *final(called) == after
                &&& #[trigger] call_ensures(
                    CrossAgentShareTable::release_request,
                    (called, req),
                    freed,
                )
            },
    ensures
        freed@.len() == before@.blocks_of(req).len(),
        forall|i: int|
            0 <= i < freed@.len() ==> (#[trigger] freed@[i]).0 == before@.blocks_of(req)[i],
        before@.owners_of(id).contains(req) <==> freed@.contains(BlockId(id)),
        !after@.owners_of(id).contains(req),
{
    before.wf_implies_inv();
    let list = before@.blocks_of(req);
    assert(before@.owners_of(id).contains(req) <==> list.contains(id));
    if list.contains(id) {
        let i = choose|i: int| 0 <= i < list.len() && list[i] == id;
        assert(freed@[i] == BlockId(id));
    }
    if freed@.contains(BlockId(id)) {
        let i = choose|i: int| 0 <= i < freed@.len() && freed@[i] == BlockId(id);
        assert(list[i] == id);
    }
    let other = if req == 0 {
        1u64
    } else {
        0u64
    };
    cross_agent::release_leaves_the_others(before@, req, other, id);
}

/// A block that was bound to a label is found under it, and under no label that it had before.
pub proof fn bound_labels_are_found(
    before: LabelMap,
    after: LabelMap,
    block: u32,
    label: u64,
    stale: Option<u64>,
    found: Option<u32>,
    gone: Option<u32>,
)
    requires
        before.wf(),
        1 <= label < before@.next,
        !before@.blocks.dom().contains(label),
        exists|called: &mut LabelMap|
            {
                &&& *called == before
                &&& *final(called) == after
                &&& #[trigger] call_ensures(LabelMap::bind, (called, block, label), stale)
            },
        call_ensures(LabelMap::block_of, (&after, label), found),
        stale matches Some(old_label) ==> call_ensures(LabelMap::block_of, (&after, old_label), gone),
    ensures
        found == Some(block),
        stale is Some ==> gone is None,
{
    before.wf_implies_inv();
    labels::labels_follow_blocks(before@, block, label);
}

/// What a region holds can be read back after it was opened: the bytes of its file, if the manifest
/// knows nothing of it, continued with zeros.
pub proof fn opened_regions_hold_their_file(
    before: DiskBackend,
    after: DiskBackend,
    bytes: u64,
    kind: RegionKind,
    file: &[u8],
    ptr: DevicePtr,
    len: usize,
    v: Vec<u8>,
    k: int,
)
    requires
        before.wf(),
        len == bytes,
        forall|j: int|
            0 <= j < before@.manifest.len() ==> (#[trigger] before@.manifest[j]).index
                != before@.regions.len(),
        exists|called: &mut DiskBackend|
            {
                &&& *called == before
                &&& *final(called) == after
                &&& #[trigger] call_ensures(
                    DiskBackend::open_region,
                    (called, bytes, kind, file),
                    Ok::<DevicePtr, BackendError>(ptr),
                )
            },
        call_ensures(DiskBackend::read_bytes, (&after, ptr, len), Ok::<Vec<u8>, BackendError>(v)),
        0 <= k < len,
    ensures
        v@.len() == len,
        v@[k] == (if k < file@.len() {
            file@[k]
        } else {
            0
        }),
        !after@.dirty[before@.regions.len() as int],
{
    before.wf_implies_inv();
    let s = before@;
    let checksum = crate::content_hash::xxh3(crate::device::disk::loaded(file@, bytes as nat));
    crate::device::disk::quarantine_follows_the_manifest(s, bytes, kind, file@, checksum, 0);
    crate::device::disk::opening_adds_one_region(s, bytes, kind, file@, checksum, k);
}

// ---- sizes and numbers

/// The size of a block is its header and its parts, as they are reported one by one, and the checked
/// size is the same.
pub proof fn reported_sizes_add_up(
    c: MlaBlockConfig,
    total: u64,
    primary: u64,
    rope: u64,
    scales: u64,
    checked: Option<u64>,
)
    requires
        call_ensures(MlaBlockConfig::total_block_bytes, (&c,), total),
        call_ensures(MlaBlockConfig::primary_block_bytes, (&c,), primary),
        call_ensures(MlaBlockConfig::rope_block_bytes, (&c,), rope),
        call_ensures(MlaBlockConfig::fp8_scale_block_bytes, (&c,), scales),
        call_ensures(MlaBlockConfig::checked_total_block_bytes, (&c,), checked),
    ensures
        total == 64 + primary + rope + scales,
        checked matches Some(n) ==> n == total,
        scales == 0 || scales == 4 * c.num_layers,
{
}

/// The aligned size of a validated configuration divides its block size, and the ratio of each of its
/// layers divides the aligned size.
pub proof fn aligned_sizes_align(c: MlaBlockConfig, r: u32, layer: u32, scheme: CompressionScheme)
    requires
        config::validated(c),
        call_ensures(MlaBlockConfig::v4_block_size_lcm, (&c,), r),
        call_ensures(MlaBlockConfig::scheme_for_layer, (&c, layer), scheme),
        c.schemes_per_layer matches Some(schemes) ==> layer < schemes@.len(),
    ensures
        r > 0,
        c.block_size_tokens as nat % r as nat == 0,
        scheme matches CompressionScheme::V4Csa { k1, .. } ==> r as nat % k1 as nat == 0,
        scheme matches CompressionScheme::V4Hca { k2, .. } ==> r as nat % k2 as nat == 0,
{
    config::block_size_is_multiple_of_lcm(c);
    assert forall|k: u32| sizing::is_ratio(scheme, k) implies r as nat % k as nat == 0 by {
        sizing::ratios_come_from_the_layers(c, k);
        if let Some(schemes) = c.schemes_per_layer {
            assert(sizing::is_ratio(schemes@[layer as int], k));
        }
        let ks = c.spans();
        let i = choose|i: int| 0 <= i < ks.len() && ks[i] == k;
        assert(multiples::divides(ks[i] as nat, r as nat));
        multiples::divides_iff_no_remainder(k as nat, r as nat);
    }
    match scheme {
        CompressionScheme::V4Csa { k1, .. } => {
            assert(sizing::is_ratio(scheme, k1));
        },
        CompressionScheme::V4Hca { k2, .. } => {
            assert(sizing::is_ratio(scheme, k2));
        },
        _ => {},
    }
}

/// Packed elements take as many bytes as their bits need.
pub proof fn packed_bytes_hold_the_bits(dtype: CkvDtype, n: u64, bytes: u64, bits: u32)
    requires
        dtype != CkvDtype::MixedBf16Fp8Fp4,
        call_ensures(CkvDtype::bytes_for_elements, (dtype, n), bytes),
        call_ensures(CkvDtype::bits, (dtype,), bits),
    ensures
        n * bits <= 8 * bytes < n * bits + 8,
{
    sizing::elements_are_packed(dtype, n as nat);
}

/// The least common multiple of two numbers does not depend on their order.
pub proof fn multiples_commute(a: u32, b: u32, r: u32, q: u32)
    requires
        call_ensures(multiples::least_common_multiple, (a, b), r),
        call_ensures(multiples::least_common_multiple, (b, a), q),
    ensures
        r == q,
{
    multiples::computed_multiple_is_least(a, b, q as nat);
    multiples::computed_multiple_is_least(b, a, r as nat);
}

// ---- delays, checks and hashes

/// A delay differs from the base latency by no more than the jitter, and without jitter not at all.
pub proof fn delays_stay_within_the_jitter(
    before: LatencyInjector,
    after: LatencyInjector,
    peer: RankId,
    us: u64,
)
    requires
        before.jitter_fits(peer),
        before.profile_spec().base(before.tier(peer)) <= i64::MAX,
        exists|called: &mut LatencyInjector|
            {
                &&& *called == before
                &&& *final(called) == after
                &&& #[trigger] call_ensures(LatencyInjector::sample_delay, (called, peer), us)
            },
    ensures
        ({
            let base = before.profile_spec().base(before.tier(peer));
            let jitter = before.profile_spec().jitter_us;
            &&& us <= base + jitter
            &&& us + jitter >= base
            &&& jitter == 0 ==> us == base
            &&& after.profile_spec() == before.profile_spec()
        }),
{
}

/// A descriptor is accepted if and only if it has the length of the index.
pub proof fn descriptors_need_the_right_length(
    length: usize,
    dimensions: usize,
    r: std::result::Result<(), BackendError>,
)
    requires
        call_ensures(labels::check_dim, (length, dimensions), r),
    ensures
        r is Ok <==> length == dimensions,
{
}

/// Equal bytes have equal hashes.
pub proof fn equal_bytes_have_equal_hashes<H: ContentHasher>(
    hasher: H,
    a: &[u8],
    b: &[u8],
    x: u64,
    y: u64,
)
    requires
        a@ == b@,
        call_ensures(H::hash, (&hasher, a), x),
        call_ensures(H::hash, (&hasher, b), y),
    ensures
        x == y,
{
}

/// A root that is allowed stays allowed when more prefixes are, and a root inside an allowed one is
/// allowed too.
pub proof fn roots_inside_allowed_ones_are_allowed(
    root: Vec<String>,
    inner: Vec<String>,
    allowed: Vec<Option<Vec<String>>>,
    more: Vec<Option<Vec<String>>>,
    r: bool,
    inner_r: bool,
)
    requires
        call_ensures(crate::device::disk::root_is_allowed, (&root, &allowed), r),
        call_ensures(crate::device::disk::root_is_allowed, (&inner, &more), inner_r),
        crate::device::disk::inside(
            crate::device::disk::components(inner@),
            crate::device::disk::components(root@),
        ),
        forall|i: int|
            0 <= i < allowed@.len() ==> i < more@.len() && more@[i] == #[trigger] allowed@[i],
    ensures
        r ==> inner_r,
        allowed@.len() == 0 ==> !r,
{
    if r {
        let i = choose|i: int|
            0 <= i < allowed@.len() && (#[trigger] allowed@[i] matches Some(prefix)
                && crate::device::disk::inside(
                crate::device::disk::components(root@),
                crate::device::disk::components(prefix@),
            ));
        assert(more@[i] == allowed@[i]);
        let prefix = allowed@[i]->0;
        crate::device::disk::paths_inside_continue_the_prefix(
            crate::device::disk::components(inner@),
            crate::device::disk::components(root@),
            crate::device::disk::components(prefix@),
        );
    }
}

/// A region of the host memory backend is full of zeros when it is new.
pub proof fn new_regions_are_zero(
    before: CpuMockBackend,
    after: CpuMockBackend,
    bytes: u64,
    kind: RegionKind,
    ptr: DevicePtr,
    len: usize,
    v: Vec<u8>,
    k: int,
)
    requires
        exists|called: &mut CpuMockBackend|
            {
                &&& *called == before
                &&& *final(called) == after
                &&& #[trigger] call_ensures(
                    CpuMockBackend::alloc_region,
                    (called, bytes, kind),
                    Ok::<DevicePtr, BackendError>(ptr),
                )
            },
        call_ensures(
            CpuMockBackend::read_bytes,
            (&after, ptr, len),
            Ok::<Vec<u8>, BackendError>(v),
        ),
        0 <= k < v@.len(),
    ensures
        len <= bytes,
        v@.len() == len,
        v@[k] == 0,
{
    assert(after.regions()[before.regions().len() as int] == device::repeated(0, bytes as nat));
}

} // verus!
