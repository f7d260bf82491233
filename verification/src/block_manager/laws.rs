//! What holds of a block manager across operations.

use vstd::prelude::*;

use crate::block::TokenRange;
use crate::block_manager::state::{self, ManagerState};
use crate::device::{self, DevicePtr};
use crate::pool::{self, PoolState};
use crate::transport::BlockPayload;

verus! {

/// Whether `len` bytes from `ptr` on miss every part of block `id`.
pub open spec fn misses_block(s: ManagerState, ptr: DevicePtr, len: nat, id: u32) -> bool {
    &&& apart(ptr, len, s.primary_at(id), s.config.primary_size())
    &&& apart(ptr, len, s.rope_at(id), s.config.rope_size())
    &&& s.scales_base is Some ==> apart(ptr, len, s.scales_at(id), s.config.scale_size())
}

/// Whether two byte ranges have no byte in common.
pub open spec fn apart(a: DevicePtr, alen: nat, b: DevicePtr, blen: nat) -> bool {
    a.region != b.region || a.offset + alen <= b.offset || b.offset + blen <= a.offset
}

/// Whether the bytes of block `id` are the same in both states.
pub open spec fn same_bytes_of(s: ManagerState, t: ManagerState, id: u32) -> bool {
    &&& t.primary(id) == s.primary(id)
    &&& t.rope(id) == s.rope(id)
    &&& s.scales_base is Some ==> t.scales(id) == s.scales(id)
}

proof fn slots_are_apart(a: int, b: int, size: int)
    requires
        0 <= a,
        0 <= b,
        a != b,
        0 <= size,
    ensures
        a * size + size <= b * size || b * size + size <= a * size,
{
    assert(a * size + size <= b * size || b * size + size <= a * size) by (nonlinear_arith)
        requires
            0 <= a,
            0 <= b,
            a != b,
            0 <= size,
    ;
}

/// No part of a live block overlaps a part of another live block.
pub proof fn blocks_do_not_overlap(s: ManagerState, a: u32, b: u32)
    requires
        s.inv(),
        s.pool.live(a),
        s.pool.live(b),
        a != b,
    ensures
        misses_block(s, s.primary_at(a), s.config.primary_size(), b),
        misses_block(s, s.rope_at(a), s.config.rope_size(), b),
        s.scales_base is Some ==> misses_block(s, s.scales_at(a), s.config.scale_size(), b),
{
    slots_do_not_overlap(s, a, b);
}

/// No part of a block overlaps a part of a block in another slot.
proof fn slots_do_not_overlap(s: ManagerState, a: u32, b: u32)
    requires
        s.inv(),
        s.pool.total > 0,
        s.pool.slot(a) != s.pool.slot(b),
    ensures
        misses_block(s, s.primary_at(a), s.config.primary_size(), b),
        misses_block(s, s.rope_at(a), s.config.rope_size(), b),
        s.scales_base is Some ==> misses_block(s, s.scales_at(a), s.config.scale_size(), b),
{
    state::block_lies_in_its_regions(s, a);
    state::block_lies_in_its_regions(s, b);
    let x = s.pool.slot(a);
    let y = s.pool.slot(b);
    pool::state::renewed_keeps_slot(a, s.pool.total);
    pool::state::renewed_keeps_slot(b, s.pool.total);
    slots_are_apart(x, y, s.config.primary_size() as int);
    slots_are_apart(x, y, s.config.rope_size() as int);
    slots_are_apart(x, y, s.config.scale_size() as int);
}

/// A write that misses a block leaves its bytes as they were.
pub proof fn write_elsewhere_keeps_block(
    s: ManagerState,
    ptr: DevicePtr,
    bytes: Seq<u8>,
    id: u32,
)
    requires
        s.inv(),
        s.pool.total > 0,
        bytes.len() == 0 || device::in_range(s.memory, ptr, bytes.len()),
        misses_block(s, ptr, bytes.len(), id),
    ensures
        same_bytes_of(s, s.with_memory(device::written(s.memory, ptr, bytes)), id),
{
    state::block_lies_in_its_regions(s, id);
    if bytes.len() > 0 {
        device::write_touches_nothing_else(
            s.memory,
            ptr,
            bytes,
            s.primary_at(id),
            s.config.primary_size(),
        );
        device::write_touches_nothing_else(
            s.memory,
            ptr,
            bytes,
            s.rope_at(id),
            s.config.rope_size(),
        );
        if s.scales_base is Some {
            device::write_touches_nothing_else(
                s.memory,
                ptr,
                bytes,
                s.scales_at(id),
                s.config.scale_size(),
            );
        }
    }
}

/// Writing to one block does not show in any other: a fork and its source are independent.
pub proof fn writes_stay_in_their_block(s: ManagerState, a: u32, b: u32, bytes: Seq<u8>)
    requires
        s.inv(),
        s.pool.live(a),
        s.pool.live(b),
        a != b,
        bytes.len() <= s.config.primary_size(),
    ensures
        same_bytes_of(
            s,
            s.with_memory(device::written(s.memory, s.primary_at(a), bytes)),
            b,
        ),
{
    blocks_do_not_overlap(s, a, b);
    state::block_lies_in_its_regions(s, a);
    write_elsewhere_keeps_block(s, s.primary_at(a), bytes, b);
}

/// One part of a block copied from `src` to `dst`, as a step between two memories.
proof fn copy_step(s: ManagerState, from: DevicePtr, to: DevicePtr, len: nat, other: u32)
    requires
        s.inv(),
        s.pool.total > 0,
        device::in_range(s.memory, from, len),
        device::in_range(s.memory, to, len),
        misses_block(s, to, len, other),
    ensures
        s.with_memory(device::copied(s.memory, from, to, len)).inv(),
        same_bytes_of(s, s.with_memory(device::copied(s.memory, from, to, len)), other),
        device::bytes_at(device::copied(s.memory, from, to, len), to, len) == device::bytes_at(
            s.memory,
            from,
            len,
        ),
{
    state::copy_keeps_inv(s, from, to, len);
    device::copy_transfers_the_source(s.memory, from, to, len);
    if len > 0 {
        write_elsewhere_keeps_block(s, to, device::bytes_at(s.memory, from, len), other);
    }
}

/// Copying a block makes the destination equal to the source and leaves the blocks in all other
/// slots, the source included, as they were.
pub proof fn block_copy_is_exact(s: ManagerState, src: u32, dst: u32, other: u32)
    requires
        s.inv(),
        s.pool.total > 0,
        s.pool.slot(src) != s.pool.slot(dst),
        s.pool.slot(other) != s.pool.slot(dst),
    ensures
        ({
            let t = s.with_memory(s.block_copied(src, dst));
            &&& t.inv()
            &&& t.primary(dst) == s.primary(src)
            &&& t.rope(dst) == s.rope(src)
            &&& s.scales_base is Some ==> t.scales(dst) == s.scales(src)
            &&& same_bytes_of(s, t, other)
        }),
{
    let m1 = s.with_memory(s.primary_copied(src, dst));
    let m2 = s.with_memory(s.rope_copied(src, dst));
    state::block_lies_in_its_regions(s, src);
    state::block_lies_in_its_regions(s, dst);
    slots_do_not_overlap(s, dst, other);
    slots_do_not_overlap(s, dst, src);
    copy_step(s, s.primary_at(src), s.primary_at(dst), s.config.primary_size(), other);
    copy_step(s, s.primary_at(src), s.primary_at(dst), s.config.primary_size(), src);
    state::block_lies_in_its_regions(m1, src);
    state::block_lies_in_its_regions(m1, dst);
    assert(m1.rope_at(src) == s.rope_at(src));
    assert(m1.rope_at(dst) == s.rope_at(dst));
    copy_step(m1, s.rope_at(src), s.rope_at(dst), s.config.rope_size(), other);
    copy_step(m1, s.rope_at(src), s.rope_at(dst), s.config.rope_size(), src);
    assert(m1.with_memory(s.rope_copied(src, dst)) == m2);
    copy_keeps_other_regions(
        m1,
        s.rope_at(src),
        s.rope_at(dst),
        s.config.rope_size(),
        s.primary_at(dst),
        s.config.primary_size(),
    );
    state::block_lies_in_its_regions(m2, src);
    state::block_lies_in_its_regions(m2, dst);
    if s.scales_base is Some {
        copy_step(m2, s.scales_at(src), s.scales_at(dst), s.config.scale_size(), other);
        copy_keeps_other_regions(
            m2,
            s.scales_at(src),
            s.scales_at(dst),
            s.config.scale_size(),
            s.primary_at(dst),
            s.config.primary_size(),
        );
        copy_keeps_other_regions(
            m2,
            s.scales_at(src),
            s.scales_at(dst),
            s.config.scale_size(),
            s.rope_at(dst),
            s.config.rope_size(),
        );
    }
}

/// A copy into one region leaves the bytes of another region as they were.
proof fn copy_keeps_other_regions(
    s: ManagerState,
    from: DevicePtr,
    to: DevicePtr,
    len: nat,
    other: DevicePtr,
    n: nat,
)
    requires
        device::in_range(s.memory, from, len),
        device::in_range(s.memory, to, len),
        device::in_range(s.memory, other, n),
        other.region != to.region,
    ensures
        device::bytes_at(device::copied(s.memory, from, to, len), other, n) == device::bytes_at(
            s.memory,
            other,
            n,
        ),
{
    if len > 0 {
        device::write_touches_nothing_else(
            s.memory,
            to,
            device::bytes_at(s.memory, from, len),
            other,
            n,
        );
    }
}

/// Copy-on-write isolation. A fork holds the bytes of its source, has one reference, and is a
/// different block; the source keeps its bytes and its reference count; and so do the bytes of
/// every other block that is still live.
pub proof fn fork_is_isolated(s: ManagerState, id: u32, req: u64, other: u32)
    requires
        s.inv(),
        s.pool.live(id),
        s.pool.metas[id].ref_count < u32::MAX,
        s.pinned(id).has_room(),
        s.fork(id, req).pool.live(other),
        other != s.pinned(id).next_block(),
    ensures
        ({
            let new = s.pinned(id).next_block();
            let t = s.fork(id, req);
            &&& new != id
            &&& t.pool.live(new)
            &&& t.pool.metas[new].ref_count == 1
            &&& t.pool.metas[new].req_id == Some(req)
            &&& t.pool.metas[new].token_range == s.pool.metas[id].token_range
            &&& t.pool.live(id)
            &&& t.pool.metas[id].ref_count == s.pool.metas[id].ref_count
            &&& t.primary(new) == s.primary(id)
            &&& t.rope(new) == s.rope(id)
            &&& s.scales_base is Some ==> t.scales(new) == s.scales(id)
            &&& same_bytes_of(s, t, id)
            &&& same_bytes_of(s, t, other)
        }),
{
    let new = s.pinned(id).next_block();
    let range = s.pool.metas[id].token_range;
    pool::laws::retain_then_release(s.pool, id);
    pool::laws::allocate_keeps_inv(s.pinned(id), req, range, s.config.ckv_dtype);
    pool::laws::evict_keeps_total(s.pinned(id));
    pool::laws::allocation_spares_shared_blocks(
        s.pinned(id),
        req,
        range,
        s.config.ckv_dtype,
        id,
    );
    let a = s.forked_pool(id, req);
    assert(a.live(new) && a.live(id) && a.live(other));
    assert(a.slot(new) != a.slot(id) && a.slot(new) != a.slot(other));
    block_copy_is_exact(s, id, new, other);
    block_copy_is_exact(s, id, new, id);
    let t = s.fork(id, req);
    let c = s.with_memory(s.block_copied(id, new));
    assert(t.primary(new) == c.primary(new));
    assert(t.rope(new) == c.rope(new));
    assert(same_bytes_of(s, t, id));
    assert(same_bytes_of(s, t, other));
}

/// Content addressing. If a block is registered under its hash, sealing another live block with
/// the same bytes and the same hash finds it, collapses onto it, frees the sealed block and adds
/// a reference to the registered one.
pub proof fn second_seal_collapses(s: ManagerState, a: u32, b: u32, hash: u64)
    requires
        s.inv(),
        s.pool.live(a),
        s.pool.live(b),
        a != b,
        s.primary(a) == s.primary(b),
        s.pool.metas[a].ref_count < u32::MAX,
        !s.pool.index.dom().contains(hash),
    ensures
        ({
            let first = s.seal(a, hash);
            let second = first.seal(b, hash);
            &&& !s.finds_duplicate(a, hash)
            &&& first.pool.index[hash] == a
            &&& first.finds_duplicate(b, hash)
            &&& !second.pool.live(b)
            &&& second.pool.live(a)
            &&& second.pool.metas[a].ref_count == s.pool.metas[a].ref_count + 1
            &&& second.pool.used() == s.pool.used() - 1
            &&& second.pool.index[hash] == a
        }),
{
    let first = s.seal(a, hash);
    assert(first.primary(a) == s.primary(a));
    assert(first.primary(b) == s.primary(b));
    assert(first.pool.live(a) && first.pool.live(b));
    assert(first.pool.metas[b].content_hash == s.pool.metas[b].content_hash);
    if s.pool.metas[b].content_hash == hash {
        assert(first.pool.index[hash] != b);
    }
}

/// A seal never makes two requests share bytes that differ: when it collapses a block, the
/// surviving block holds the same bytes; otherwise the sealed block stays live.
pub proof fn seal_never_mixes_contents(s: ManagerState, id: u32, hash: u64)
    requires
        s.inv(),
        s.pool.live(id),
    ensures
        s.finds_duplicate(id, hash) ==> {
            let canonical = s.pool.index[hash];
            &&& s.seal(id, hash).pool.live(canonical)
            &&& s.seal(id, hash).primary(canonical) == s.primary(id)
        },
        !s.finds_duplicate(id, hash) ==> s.seal(id, hash).pool.live(id),
        s.seal(id, hash).memory == s.memory,
{
}

/// Sealing a block that is registered under its own hash changes no reference, no entry of the
/// index and no byte.
pub proof fn resealing_is_harmless(s: ManagerState, id: u32, hash: u64)
    requires
        s.inv(),
        s.pool.live(id),
        s.pool.index.dom().contains(hash),
        s.pool.index[hash] == id,
        s.pool.metas[id].content_hash == hash,
    ensures
        !s.finds_duplicate(id, hash),
        s.same_but_touched(s.seal(id, hash)),
{
    let t = s.seal(id, hash);
    assert(t.pool.metas =~= s.touch(id).pool.metas);
    assert(t.pool =~= s.touch(id).pool);
    pool::laws::touch_is_only_a_touch(s.pool, s.pool, id);
}

/// Whether the parts of a payload have the lengths of the parts of a block.
pub open spec fn fits_block(s: ManagerState, p: BlockPayload) -> bool {
    &&& p.c_kv@.len() == s.config.primary_size()
    &&& p.k_rope@.len() == s.config.rope_size()
    &&& p.fp8_scales is Some <==> s.scales_base is Some
    &&& p.fp8_scales matches Some(scales) ==> scales@.len() == s.config.scale_size()
}

/// What is exported has the shape of a block.
pub proof fn export_fits_block(s: ManagerState, id: u32, p: BlockPayload)
    requires
        s.inv(),
        s.pool.live(id),
        s.holds(id, p),
    ensures
        fits_block(s, p),
{
    state::block_lies_in_its_regions(s, id);
}

/// Round trip. A payload of the right shape is accepted, the block that was allocated for it
/// holds exactly that payload, and the bytes of every other block that is still live stay as they
/// were.
pub proof fn import_round_trip(
    s: ManagerState,
    req: u64,
    range: TokenRange,
    p: BlockPayload,
    other: u32,
)
    requires
        s.inv(),
        s.incoming(req).pool.has_room(),
        fits_block(s, p),
    ensures
        ({
            let id = s.incoming(req).pool.next_block();
            let t = s.import(req, range, p);
            &&& s.incoming(req).accepts(p)
            &&& t.inv()
            &&& t.pool.live(id)
            &&& t.holds(id, p)
            &&& t.pool.live(other) && other != id ==> same_bytes_of(s, t, other)
        }),
{
    pool::laws::claimed_keeps_inv(s.pool, req);
    store_round_trip(s.incoming(req), req, range, p, other);
}

/// A payload that is stored in the next block is held by it, and no other block changes.
proof fn store_round_trip(
    s: ManagerState,
    req: u64,
    range: TokenRange,
    p: BlockPayload,
    other: u32,
)
    requires
        s.inv(),
        s.pool.has_room(),
        fits_block(s, p),
    ensures
        s.accepts(p),
        s.store(req, range, p).inv(),
        s.store(req, range, p).pool.live(s.pool.next_block()),
        s.store(req, range, p).holds(s.pool.next_block(), p),
        s.store(req, range, p).pool.live(other) && other != s.pool.next_block() ==> same_bytes_of(
            s,
            s.store(req, range, p),
            other,
        ),
{
    let id = s.pool.next_block();
    pool::laws::allocate_keeps_inv(s.pool, req, range, s.config.ckv_dtype);
    pool::laws::evict_keeps_total(s.pool);
    let a = s.imported_pool(req, range);
    pool::laws::touch_keeps_inv(a, id);
    pool::laws::touch_keeps_inv(a.touch(id), id);
    assert(a.live(id));
    let apart = a.live(other) && other != id;
    state::block_lies_in_its_regions(s, id);
    if apart {
        assert(a.slot(id) != a.slot(other));
        slots_do_not_overlap(s, id, other);
    }
    let m1 = s.with_memory(s.primary_imported(p));
    let m2 = s.with_memory(s.rope_imported(p));
    let m3 = s.with_memory(s.all_imported(p));
    state::write_keeps_inv(s, s.primary_at(id), p.c_kv@);
    device::read_after_write(s.memory, s.primary_at(id), p.c_kv@);
    if apart {
        write_elsewhere_keeps_block(s, s.primary_at(id), p.c_kv@, other);
    }
    state::block_lies_in_its_regions(m1, id);
    if s.config.rope_size() > 0 {
        state::write_keeps_inv(m1, s.rope_at(id), p.k_rope@);
        device::read_after_write(m1.memory, s.rope_at(id), p.k_rope@);
        device::write_touches_nothing_else(
            m1.memory,
            s.rope_at(id),
            p.k_rope@,
            s.primary_at(id),
            s.config.primary_size(),
        );
        if apart {
            write_elsewhere_keeps_block(m1, s.rope_at(id), p.k_rope@, other);
        }
        assert(m1.with_memory(s.rope_imported(p)) == m2);
    } else {
        assert(p.k_rope@ =~= m2.rope(id));
    }
    state::block_lies_in_its_regions(m2, id);
    if let Some(scales) = p.fp8_scales {
        state::write_keeps_inv(m2, s.scales_at(id), scales@);
        device::read_after_write(m2.memory, s.scales_at(id), scales@);
        device::write_touches_nothing_else(
            m2.memory,
            s.scales_at(id),
            scales@,
            s.primary_at(id),
            s.config.primary_size(),
        );
        device::write_touches_nothing_else(
            m2.memory,
            s.scales_at(id),
            scales@,
            s.rope_at(id),
            s.config.rope_size(),
        );
        if apart {
            write_elsewhere_keeps_block(m2, s.scales_at(id), scales@, other);
        }
        assert(m2.with_memory(s.all_imported(p)) == m3);
    }
    let t = s.store(req, range, p);
    assert(t.memory == m3.memory);
    assert(t.primary(id) == m3.primary(id));
    assert(t.rope(id) == m3.rope(id));
    assert(t.primary(other) == m3.primary(other));
    assert(t.rope(other) == m3.rope(other));
}

/// State after payloads were imported for `req` one after the other.
pub open spec fn import_all(
    s: ManagerState,
    req: u64,
    range: TokenRange,
    payloads: Seq<BlockPayload>,
) -> ManagerState
    decreases payloads.len(),
{
    if payloads.len() == 0 {
        s
    } else {
        import_all(s, req, range, payloads.drop_last()).import(req, range, payloads.last())
    }
}

/// The blocks that the next `n` allocations hand out, as long as that many are free.
pub open spec fn next_blocks(s: PoolState, n: nat) -> Seq<u32> {
    Seq::new(n, |i: int| s.free[s.free.len() - 1 - i])
}

/// Payloads that arrive where as many blocks are free all stay: each is held by a block of its
/// own, which belongs to `req`, and no block that was there before is evicted or changed. Each uses
/// up a slot that a reservation holds, as long as there is one.
pub proof fn imports_arrive(
    s: ManagerState,
    req: u64,
    range: TokenRange,
    payloads: Seq<BlockPayload>,
)
    requires
        s.inv(),
        payloads.len() <= s.pool.free.len(),
        forall|i: int| 0 <= i < payloads.len() ==> fits_block(s, #[trigger] payloads[i]),
    ensures
        ({
            let t = import_all(s, req, range, payloads);
            let ids = next_blocks(s.pool, payloads.len());
            &&& t.inv()
            &&& t == (ManagerState { pool: t.pool, memory: t.memory, ..s })
            &&& t.pool.total == s.pool.total
            &&& t.pool.free == s.pool.free.take(s.pool.free.len() - payloads.len())
            &&& t.pool.blocks_of(req) == s.pool.blocks_of(req) + ids
            &&& t.pool.held() == (if s.pool.held() > payloads.len() {
                s.pool.held() - payloads.len()
            } else {
                0
            })
            &&& forall|i: int|
                0 <= i < payloads.len() ==> {
                    &&& t.pool.live(#[trigger] ids[i])
                    &&& t.pool.metas[ids[i]].req_id == Some(req)
                    &&& t.pool.metas[ids[i]].ref_count == 1
                    &&& t.holds(ids[i], payloads[i])
                }
            &&& forall|id: u32| #[trigger]
                s.pool.live(id) ==> {
                    &&& t.pool.live(id)
                    &&& t.pool.metas[id] == s.pool.metas[id]
                    &&& same_bytes_of(s, t, id)
                }
        }),
    decreases payloads.len(),
{
    let t = import_all(s, req, range, payloads);
    let ids = next_blocks(s.pool, payloads.len());
    if payloads.len() == 0 {
        assert(t.pool.free =~= s.pool.free.take(s.pool.free.len() as int));
        assert(s.pool.blocks_of(req) + ids =~= s.pool.blocks_of(req));
    } else {
        let n = payloads.len() - 1;
        let front = payloads.drop_last();
        let m = import_all(s, req, range, front);
        let p = payloads.last();
        assert forall|i: int| 0 <= i < front.len() implies fits_block(s, #[trigger] front[i]) by {
            assert(front[i] == payloads[i]);
        }
        imports_arrive(s, req, range, front);
        let before = next_blocks(s.pool, front.len());
        pool::laws::claimed_keeps_inv(m.pool, req);
        let id = m.incoming(req).pool.next_block();
        assert(id == s.pool.free[s.pool.free.len() - 1 - n]);
        assert(ids =~= before.push(id));
        assert(fits_block(s, payloads[n]));
        assert(fits_block(m, p));
        import_round_trip(m, req, range, p, id);
        pool::laws::allocation_spares_reserved_slots(
            m.incoming(req).pool,
            req,
            range,
            m.config.ckv_dtype,
        );
        assert(t.pool.free =~= s.pool.free.take(s.pool.free.len() - payloads.len()));
        assert(t.pool.blocks_of(req) =~= s.pool.blocks_of(req) + ids);
        assert forall|i: int| 0 <= i < payloads.len() implies {
            &&& t.pool.live(#[trigger] ids[i])
            &&& t.pool.metas[ids[i]].req_id == Some(req)
            &&& t.pool.metas[ids[i]].ref_count == 1
            &&& t.holds(ids[i], payloads[i])
        } by {
            if i < n {
                assert(before[i] == ids[i]);
                assert(front[i] == payloads[i]);
                import_round_trip(m, req, range, p, ids[i]);
            }
        }
        assert forall|x: u32| #[trigger] s.pool.live(x) implies {
            &&& t.pool.live(x)
            &&& t.pool.metas[x] == s.pool.metas[x]
            &&& same_bytes_of(s, t, x)
        } by {
            import_round_trip(m, req, range, p, x);
        }
    }
}

} // verus!
