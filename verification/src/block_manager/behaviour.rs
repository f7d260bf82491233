//! What the operations of a block manager do, block by block and byte by byte.

use vstd::prelude::*;

use crate::block::{TokenRange, SHARED_SENTINEL};
use crate::block_manager::state::{self, ManagerState};
use crate::block_manager::transfer::{self, TransferAction, TransferEvent};
use crate::block_manager::{self, laws};
use crate::config::MlaBlockConfig;
use crate::device::{self, DeviceBackend};
use crate::error::{BackendError, Result, TesseraError};
use crate::pool::{self, behaviour};
use crate::rank::{RankId, World};
use crate::transport::{BlockPayload, ReservationToken};

verus! {

// ---- where the bytes are

/// The parts of a block lie in the regions of the manager, at the place of the block's slot: byte
/// `k` of a part is the byte `k` behind as many parts as there are slots before it.
pub proof fn parts_lie_at_their_slots(s: ManagerState, id: u32, k: int)
    requires
        s.inv(),
        s.pool.live(id),
    ensures
        ({
            let slot = id as int % s.pool.total as int;
            let primary = s.memory[s.primary_base.region as int];
            let rope = s.memory[s.rope_base.region as int];
            &&& s.primary(id).len() == s.config.primary_size()
            &&& s.rope(id).len() == s.config.rope_size()
            &&& 0 <= k < s.config.primary_size() ==> s.primary(id)[k] == primary[slot
                * s.config.primary_size() + k]
            &&& 0 <= k < s.config.rope_size() ==> s.rope(id)[k] == rope[slot
                * s.config.rope_size() + k]
            &&& s.scales_base matches Some(base) ==> {
                &&& s.scales(id).len() == s.config.scale_size()
                &&& 0 <= k < s.config.scale_size() ==> s.scales(id)[k]
                    == s.memory[base.region as int][slot * s.config.scale_size() + k]
            }
        }),
{
    state::block_lies_in_its_regions(s, id);
}

/// What is exported are the bytes of the block as they lie in memory, part by part; there are
/// scale factors in it if and only if the manager keeps any.
pub proof fn exports_copy_the_bytes(s: ManagerState, id: u32, p: BlockPayload, k: int)
    requires
        s.inv(),
        s.pool.live(id),
        s.holds(id, p),
    ensures
        ({
            let slot = id as int % s.pool.total as int;
            &&& p.c_kv@.len() == s.config.primary_size()
            &&& p.k_rope@.len() == s.config.rope_size()
            &&& 0 <= k < p.c_kv@.len() ==> p.c_kv@[k] == s.memory[s.primary_base.region as int][slot
                * s.config.primary_size() + k]
            &&& 0 <= k < p.k_rope@.len() ==> p.k_rope@[k] == s.memory[s.rope_base.region as int][
            slot * s.config.rope_size() + k]
            &&& p.fp8_scales is Some <==> s.scales_base is Some
            &&& p.fp8_scales matches Some(scales) ==> {
                &&& scales@.len() == s.config.scale_size()
                &&& 0 <= k < scales@.len() ==> scales@[k]
                    == s.memory[s.scales_base->0.region as int][slot * s.config.scale_size() + k]
            }
        }),
{
    parts_lie_at_their_slots(s, id, k);
}

/// An export reads and changes nothing but the time of the last access. It fails for a block that
/// is not allocated.
pub proof fn exporting_only_reads<B: DeviceBackend>(
    s: ManagerState,
    t: ManagerState,
    device: B,
    id: u32,
    r: Result<BlockPayload>,
)
    requires
        state::exported(s, t, device, id, r),
    ensures
        s.same_but_touched(t),
        t.memory == s.memory,
        !s.pool.live(id) ==> r == Err::<BlockPayload, TesseraError>(TesseraError::UnknownBlock(id)),
        r matches Ok(p) ==> s.pool.live(id) && s.holds(id, p) && t.holds(id, p),
{
    pool::laws::touching_nothing(s.pool);
    pool::laws::touch_is_only_a_touch(s.pool, s.pool, id);
    pool::laws::touch_is_only_a_touch(s.pool, s.pool.touch(id), id);
}

/// Accesses change no byte, no reference, no list and no entry of the index.
pub proof fn accesses_keep_the_blocks(s: ManagerState, t: ManagerState, id: u32, req: u64)
    requires
        s.same_but_touched(t),
    ensures
        t.memory == s.memory,
        t.config == s.config,
        t.rank == s.rank,
        t.pool.live(id) == s.pool.live(id),
        s.pool.live(id) ==> t.pool.metas[id].ref_count == s.pool.metas[id].ref_count,
        t.pool.blocks_of(req) == s.pool.blocks_of(req),
        t.pool.index == s.pool.index,
        t.pool.free == s.pool.free,
        laws::same_bytes_of(s, t, id),
{
    behaviour::accesses_change_nothing_else(s.pool, t.pool, id);
    assert(t.pool.slot(id) == s.pool.slot(id));
}

/// Filling a block makes each byte of its primary part the given one. Its other parts, and all
/// other blocks, stay as they were.
pub proof fn filling_reaches_every_byte(s: ManagerState, id: u32, byte: u8, k: int, other: u32)
    requires
        s.inv(),
        s.pool.live(id),
        s.pool.live(other),
        other != id,
    ensures
        ({
            let t = s.touch(id).with_memory(
                device::written(
                    s.memory,
                    s.primary_at(id),
                    device::repeated(byte, s.config.primary_size()),
                ),
            );
            &&& 0 <= k < s.config.primary_size() ==> t.primary(id)[k] == byte
            &&& t.rope(id) == s.rope(id)
            &&& s.scales_base is Some ==> t.scales(id) == s.scales(id)
            &&& laws::same_bytes_of(s, t, other)
        }),
{
    let bytes = device::repeated(byte, s.config.primary_size());
    let t = s.touch(id).with_memory(device::written(s.memory, s.primary_at(id), bytes));
    let m = s.with_memory(device::written(s.memory, s.primary_at(id), bytes));
    state::block_lies_in_its_regions(s, id);
    device::read_after_write(s.memory, s.primary_at(id), bytes);
    assert(t.primary(id) == m.primary(id));
    device::write_touches_nothing_else(
        s.memory,
        s.primary_at(id),
        bytes,
        s.rope_at(id),
        s.config.rope_size(),
    );
    if s.scales_base is Some {
        device::write_touches_nothing_else(
            s.memory,
            s.primary_at(id),
            bytes,
            s.scales_at(id),
            s.config.scale_size(),
        );
    }
    laws::writes_stay_in_their_block(s, id, other, bytes);
    assert(laws::same_bytes_of(s, m, other));
    assert(t.primary(other) == m.primary(other));
    assert(t.rope(other) == m.rope(other));
}

/// Four bytes in little-endian order give back the number they were made of.
pub proof fn little_endian_reads_back(words: Seq<u32>, i: int)
    requires
        0 <= i < words.len(),
    ensures
        ({
            let bytes = block_manager::little_endian(words);
            &&& bytes.len() == 4 * words.len()
            &&& bytes[4 * i] + 0x100 * bytes[4 * i + 1] + 0x1_0000 * bytes[4 * i + 2] + 0x100_0000
                * bytes[4 * i + 3] == words[i]
        }),
{
    let w = words[i];
    let b0 = (w & 0xff) as u8;
    let b1 = ((w >> 8) & 0xff) as u8;
    let b2 = ((w >> 16) & 0xff) as u8;
    let b3 = ((w >> 24) & 0xff) as u8;
    let bytes = block_manager::little_endian(words);
    assert((4 * i) / 4 == i && (4 * i) % 4 == 0);
    assert((4 * i + 1) / 4 == i && (4 * i + 1) % 4 == 1);
    assert((4 * i + 2) / 4 == i && (4 * i + 2) % 4 == 2);
    assert((4 * i + 3) / 4 == i && (4 * i + 3) % 4 == 3);
    assert(bytes[4 * i] == b0 && bytes[4 * i + 1] == b1 && bytes[4 * i + 2] == b2 && bytes[4 * i
        + 3] == b3);
    assert(b0 + 0x100 * b1 + 0x1_0000 * b2 + 0x100_0000 * b3 == w) by (bit_vector)
        requires
            b0 == (w & 0xff) as u8,
            b1 == ((w >> 8) & 0xff) as u8,
            b2 == ((w >> 16) & 0xff) as u8,
            b3 == ((w >> 24) & 0xff) as u8,
    ;
}

/// Scale factors that are written are read back, one per layer in order, and no other part of the
/// block changes.
pub proof fn scales_are_stored_by_layer(s: ManagerState, id: u32, words: Seq<u32>, layer: int)
    requires
        s.inv(),
        s.pool.live(id),
        s.scales_base is Some,
        words.len() == s.config.num_layers,
        0 <= layer < words.len(),
    ensures
        ({
            let t = s.with_memory(
                device::written(s.memory, s.scales_at(id), block_manager::little_endian(words)),
            );
            let scales = t.scales(id);
            &&& scales[4 * layer] + 0x100 * scales[4 * layer + 1] + 0x1_0000 * scales[4 * layer + 2]
                + 0x100_0000 * scales[4 * layer + 3] == words[layer]
            &&& t.primary(id) == s.primary(id)
            &&& t.rope(id) == s.rope(id)
        }),
{
    let bytes = block_manager::little_endian(words);
    state::block_lies_in_its_regions(s, id);
    little_endian_reads_back(words, layer);
    assert(s.config.scale_size() == 4 * s.config.num_layers);
    device::read_after_write(s.memory, s.scales_at(id), bytes);
    device::write_touches_nothing_else(
        s.memory,
        s.scales_at(id),
        bytes,
        s.primary_at(id),
        s.config.primary_size(),
    );
    device::write_touches_nothing_else(
        s.memory,
        s.scales_at(id),
        bytes,
        s.rope_at(id),
        s.config.rope_size(),
    );
}

// ---- building

/// A budget makes as many blocks as fit it. It is refused if not even one fits, or more than can be
/// numbered.
pub proof fn budget_makes_what_fits(config: MlaBlockConfig, memory_bytes: u64, n: nat)
    requires
        n == memory_bytes as nat / config.block_size(),
    ensures
        n * config.block_size() <= memory_bytes,
        memory_bytes < (n + 1) * config.block_size(),
        block_manager::budget_fault(config, memory_bytes) is None <==> 1 <= n <= u32::MAX,
{
    let size = config.block_size();
    let m = memory_bytes as nat;
    assert(size > 0);
    assert(n * size <= m && m < (n + 1) * size) by (nonlinear_arith)
        requires
            n == m / size,
            size > 0,
    ;
    if n == 0 {
        assert(m < size) by (nonlinear_arith)
            requires
                m < (n + 1) * size,
                n == 0,
        ;
    } else {
        assert(m >= size) by (nonlinear_arith)
            requires
                n * size <= m,
                n >= 1,
        ;
    }
}

/// A new manager holds no block, and its regions have room for the parts of all its blocks. What
/// the device held before stays; what it clears is zero.
pub proof fn new_manager_is_empty(
    s: ManagerState,
    config: MlaBlockConfig,
    rank: RankId,
    total: u32,
    before: Seq<Seq<u8>>,
    cleared: bool,
    id: u32,
    i: int,
)
    requires
        s.inv(),
        s.built(config, rank, total, before, cleared),
        before.len() + 2 <= u32::MAX,
    ensures
        !s.pool.live(id),
        s.pool.used() == 0,
        s.pool.total == total,
        s.rank == rank,
        s.config == config,
        s.memory[s.primary_base.region as int].len() == config.primary_size() * total,
        s.memory[s.rope_base.region as int].len() == config.rope_size() * total,
        s.scales_base matches Some(base) ==> s.memory[base.region as int].len()
            == config.scale_size() * total,
        0 <= i < before.len() ==> s.memory[i] == before[i],
        before.len() <= s.primary_base.region,
        before.len() <= s.rope_base.region,
        cleared && before.len() <= i < s.memory.len() ==> forall|k: int|
            0 <= k < s.memory[i].len() ==> #[trigger] s.memory[i][k] == 0,
{
    if 0 <= i < before.len() {
        assert(s.memory.take(before.len() as int)[i] == s.memory[i]);
    }
    if cleared && before.len() <= i < s.memory.len() {
        assert(s.memory[i] == device::repeated(0, s.memory[i].len()));
    }
}

// ---- sealing

/// Sealing compares bytes: it finds a duplicate if and only if the block that is registered under
/// the hash is another one, is live, and has the same byte in every place.
pub proof fn duplicates_have_equal_bytes(s: ManagerState, id: u32, hash: u64)
    requires
        s.inv(),
        s.pool.live(id),
    ensures
        s.finds_duplicate(id, hash) <==> {
            &&& s.pool.index.dom().contains(hash)
            &&& s.pool.index[hash] != id
            &&& s.pool.live(s.pool.index[hash])
            &&& forall|k: int|
                0 <= k < s.config.primary_size() ==> s.primary(s.pool.index[hash])[k]
                    == #[trigger] s.primary(id)[k]
        },
{
    state::block_lies_in_its_regions(s, id);
    if s.pool.index.dom().contains(hash) {
        let c = s.pool.index[hash];
        state::block_lies_in_its_regions(s, c);
        if forall|k: int|
            0 <= k < s.config.primary_size() ==> s.primary(c)[k] == #[trigger] s.primary(id)[k] {
            assert(s.primary(c) =~= s.primary(id));
        }
    }
}

/// Sealing the first block with a hash registers it: the hash names it from then on. No block comes
/// or goes, no reference and no byte changes, and the other entries of the index stay.
pub proof fn first_seal_registers(s: ManagerState, id: u32, hash: u64, other: u32, h: u64)
    requires
        s.inv(),
        s.pool.live(id),
        !s.pool.index.dom().contains(hash),
    ensures
        ({
            let t = s.seal(id, hash);
            &&& !s.finds_duplicate(id, hash)
            &&& t.pool.index.dom().contains(hash)
            &&& t.pool.index[hash] == id
            &&& t.pool.metas[id].content_hash == hash
            &&& h != hash ==> t.pool.index.dom().contains(h) == s.pool.index.dom().contains(h)
            &&& s.pool.index.dom().contains(h) ==> t.pool.index[h] == s.pool.index[h]
            &&& t.pool.live(other) == s.pool.live(other)
            &&& s.pool.live(other) ==> t.pool.metas[other].ref_count
                == s.pool.metas[other].ref_count
            &&& t.pool.free == s.pool.free
            &&& t.pool.owned == s.pool.owned
            &&& t.memory == s.memory
        }),
{
}

/// Sealing a duplicate collapses it: the block is gone and its slot free, the registered block has
/// one reference more, and nothing happens to any other block. The hash still names the registered
/// block.
pub proof fn duplicate_seal_collapses(
    s: ManagerState,
    id: u32,
    hash: u64,
    other: u32,
    h: u64,
    req: u64,
)
    requires
        s.inv(),
        s.pool.live(id),
        s.finds_duplicate(id, hash),
        s.pool.metas[s.pool.index[hash]].ref_count < u32::MAX,
        req != SHARED_SENTINEL,
    ensures
        ({
            let t = s.seal(id, hash);
            let canonical = s.pool.index[hash];
            &&& !t.pool.live(id)
            &&& t.pool.live(canonical)
            &&& t.pool.metas[canonical].ref_count == s.pool.metas[canonical].ref_count + 1
            &&& t.pool.used() == s.pool.used() - 1
            &&& t.pool.index.dom().contains(hash)
            &&& t.pool.index[hash] == canonical
            &&& other != id ==> t.pool.live(other) == s.pool.live(other)
            &&& s.pool.live(other) && other != id && other != canonical
                ==> t.pool.metas[other].ref_count == s.pool.metas[other].ref_count
            &&& s.pool.index.dom().contains(h) && s.pool.index[h] != id
                ==> t.pool.index.dom().contains(h) && t.pool.index[h] == s.pool.index[h]
            &&& t.pool.blocks_of(req).contains(other) <==> s.pool.blocks_of(req).contains(other)
                && other != id
            &&& t.memory == s.memory
        }),
{
    let canonical = s.pool.index[hash];
    let a = s.touch(id).touch(id).touch(canonical).pool;
    pool::laws::touch_keeps_inv(s.pool, id);
    pool::laws::touch_keeps_inv(s.pool.touch(id), id);
    pool::laws::touch_keeps_inv(s.pool.touch(id).touch(id), canonical);
    pool::laws::with_refs_keeps_inv(a, canonical, (a.metas[canonical].ref_count + 1) as u32);
    behaviour::freed_slot_leaves_the_lists(a.retain(canonical), id, other, req);
}

/// On a collision the block stays what it was: it is live, the index keeps its entry, and no
/// reference or byte changes. Only its hash is recorded.
pub proof fn collision_keeps_both_blocks(s: ManagerState, id: u32, hash: u64, other: u32)
    requires
        s.inv(),
        s.pool.live(id),
        s.pool.index.dom().contains(hash),
        !s.finds_duplicate(id, hash),
    ensures
        ({
            let t = s.seal(id, hash);
            &&& t.pool.live(id)
            &&& t.pool.metas[id].content_hash == hash
            &&& t.pool.index == s.pool.index
            &&& t.pool.live(other) == s.pool.live(other)
            &&& s.pool.live(other) ==> t.pool.metas[other].ref_count
                == s.pool.metas[other].ref_count
            &&& t.pool.free == s.pool.free
            &&& t.pool.owned == s.pool.owned
            &&& t.memory == s.memory
        }),
{
}

/// Sealing keeps the content index in step with the blocks: every hash in it names a live block
/// that was sealed with it. A block that is registered already is to be sealed with the hash it
/// is registered under.
pub proof fn sealing_keeps_the_index_current(s: ManagerState, id: u32, hash: u64)
    requires
        s.inv(),
        s.pool.live(id),
        behaviour::index_is_current(s.pool),
        hash != 0,
        behaviour::unindexed(s.pool, id) || (s.pool.index.dom().contains(hash) && s.pool.index[hash] == id),
    ensures
        behaviour::index_is_current(s.seal(id, hash).pool),
        s.seal(id, hash).pool.index.dom().contains(hash),
        !s.seal(id, hash).pool.live(id) ==> behaviour::unindexed(s.seal(id, hash).pool, id),
{
    let t = s.seal(id, hash);
    let a = s.touch(id).pool;
    behaviour::current_in(s.pool, a);
    pool::laws::touch_keeps_inv(s.pool, id);
    if !a.index.dom().contains(hash) {
        behaviour::published_block_is_found(a, id, hash);
    } else if a.index[hash] == id {
        behaviour::current_in(a, t.pool);
    } else {
        let canonical = a.index[hash];
        let compared = s.touch(id).touch(id).touch(canonical).pool;
        behaviour::current_in(a, compared);
        assert forall|h: u64| #[trigger] t.pool.index.dom().contains(h) implies {
            &&& h != 0
            &&& t.pool.index[h] != id
            &&& t.pool.live(t.pool.index[h])
            &&& t.pool.metas[t.pool.index[h]].content_hash == h
        } by {
            assert(s.pool.index.dom().contains(h));
        }
    }
}

// ---- forking and importing

/// A fork belongs to the request it was made for: it is the last on its list, not sealed, not
/// indexed, and stored in the manager's precision. The source stays where it was.
pub proof fn fork_belongs_to_its_request(s: ManagerState, id: u32, req: u64)
    requires
        s.inv(),
        s.pool.live(id),
        s.pool.metas[id].ref_count < u32::MAX,
        s.pinned(id).has_room(),
    ensures
        ({
            let new = s.pinned(id).next_block();
            let t = s.fork(id, req);
            &&& t.pool.live(new)
            &&& t.pool.metas[new].req_id == Some(req)
            &&& t.pool.metas[new].content_hash == 0
            &&& !t.pool.metas[new].indexed
            &&& t.pool.metas[new].ckv_dtype == s.config.ckv_dtype
            &&& t.pool.blocks_of(req).len() > 0
            &&& t.pool.blocks_of(req).last() == new
            &&& t.pool.live(id)
            &&& t.pool.metas[id].req_id == s.pool.metas[id].req_id
            &&& t.pool.metas[id].content_hash == s.pool.metas[id].content_hash
            &&& t.pool.owned == s.forked_pool(id, req).owned
            &&& t.pool.index == s.forked_pool(id, req).index
            &&& t.pool.reservations == s.pool.reservations
            &&& t.config == s.config
            &&& t.rank == s.rank
        }),
{
    let new = s.pinned(id).next_block();
    let range = s.pool.metas[id].token_range;
    pool::laws::retain_then_release(s.pool, id);
    pool::laws::allocate_keeps_inv(s.pinned(id), req, range, s.config.ckv_dtype);
    pool::laws::allocation_spares_shared_blocks(
        s.pinned(id),
        req,
        range,
        s.config.ckv_dtype,
        id,
    );
    let a = s.forked_pool(id, req);
    assert(a.metas[id].ref_count == s.pool.metas[id].ref_count + 1);
    assert(a.blocks_of(req).last() == new);
}

/// A fork costs one slot, or evicts one block where none is spare; the source is never the one.
pub proof fn fork_spares_its_source(s: ManagerState, id: u32, req: u64, other: u32)
    requires
        s.inv(),
        s.pool.live(id),
        s.pool.metas[id].ref_count < u32::MAX,
        s.pinned(id).has_room(),
        s.pool.live(other),
    ensures
        s.pinned(id).victim() != Some(id),
        s.pool.spare() > 0 || s.pinned(id).victim() != Some(other) ==> s.fork(id, req).pool.live(
            other,
        ) && s.fork(id, req).pool.metas[other].ref_count == s.pool.metas[other].ref_count,
{
    let range = s.pool.metas[id].token_range;
    pool::laws::retain_then_release(s.pool, id);
    if let Some(v) = s.pinned(id).victim() {
        assert(s.pinned(id).is_victim(v));
    }
    behaviour::allocation_evicts_at_most_the_victim(
        s.pinned(id),
        req,
        range,
        s.config.ckv_dtype,
        other,
    );
    behaviour::allocation_evicts_at_most_the_victim(
        s.pinned(id),
        req,
        range,
        s.config.ckv_dtype,
        id,
    );
}

/// A block that was imported belongs to the request it was imported for, covers the given tokens,
/// has one reference and is the last on the request's list.
pub proof fn imported_block_belongs_to_its_request(
    s: ManagerState,
    req: u64,
    range: TokenRange,
    p: BlockPayload,
)
    requires
        s.inv(),
        s.incoming(req).pool.has_room(),
    ensures
        ({
            let id = s.incoming(req).pool.next_block();
            let t = s.import(req, range, p);
            &&& t.pool.live(id)
            &&& t.pool.metas[id].req_id == Some(req)
            &&& t.pool.metas[id].token_range == range
            &&& t.pool.metas[id].ref_count == 1
            &&& t.pool.metas[id].content_hash == 0
            &&& t.pool.metas[id].ckv_dtype == s.config.ckv_dtype
            &&& t.pool.blocks_of(req).len() > 0
            &&& t.pool.blocks_of(req).last() == id
            &&& s.incoming(req).imported_pool(req, range).same_but_touched(t.pool)
            &&& t.config == s.config
        }),
{
    let a = s.incoming(req).imported_pool(req, range);
    let id = s.incoming(req).pool.next_block();
    pool::laws::touch_is_only_a_touch(a, a, id);
    pool::laws::touch_is_only_a_touch(a, a.touch(id), id);
}

/// An import that is refused for its length or for lack of room changes nothing, not even a
/// reservation.
pub proof fn refused_imports_change_nothing(
    s: ManagerState,
    t: ManagerState,
    dependable: bool,
    req: u64,
    range: TokenRange,
    p: BlockPayload,
    r: Result<crate::block::BlockId>,
)
    requires
        state::imported(s, t, dependable, req, range, p, r),
        p.c_kv@.len() != s.config.primary_size() || !s.incoming(req).pool.has_room(),
    ensures
        r is Err,
        t == s,
{
}

/// A reservation that is granted is on record with its request and its number of slots, under a
/// token that names the rank; that many slots are held more than before. One that is refused leaves
/// no record, and then every block that is left is shared.
pub proof fn granted_reservations_hold_their_slots(
    s: ManagerState,
    t: ManagerState,
    req: u64,
    count: u32,
    r: Result<ReservationToken>,
)
    requires
        s.inv(),
        state::reserved(s, t, req, count, r),
        !s.pool.reservations.dom().contains(
            pool::state::token_of(s.rank.0, s.pool.next_reservation),
        ),
    ensures
        t.memory == s.memory,
        match r {
            Ok(token) => {
                &&& t.pool.reservations.dom().contains(token.0)
                &&& t.pool.reservations[token.0] == (req, count)
                &&& t.pool.held() == s.pool.held() + count
                &&& t.pool.order.last() == token.0
                &&& s.rank.0 < 0x1_0000 && s.pool.next_reservation < 0x1_0000_0000_0000 ==> token.0
                    == s.rank.0 * 0x1_0000_0000_0000 + s.pool.next_reservation
            },
            Err(_) => {
                &&& t.pool.reservations == s.pool.reservations
                &&& t.pool.held() == s.pool.held()
                &&& forall|id: u32| #[trigger]
                    t.pool.live(id) ==> t.pool.metas[id].ref_count > 1
            },
        },
{
    let room = s.pool.with_capacity(count);
    pool::laws::with_capacity_keeps_inv(s.pool, count);
    pool::laws::with_capacity_keeps_reservations(s.pool, count);
    behaviour::reservations_evict_what_they_need(s.pool, count);
    if room.spare() >= count {
        pool::laws::reserve_keeps_inv(room, s.rank.0, req, count);
        behaviour::new_reservation_is_the_youngest(room, s.rank.0, req, count);
        if s.rank.0 < 0x1_0000 && s.pool.next_reservation < 0x1_0000_0000_0000 {
            behaviour::token_names_rank_and_counter(s.rank.0, s.pool.next_reservation);
        }
    }
}

// ---- transfers

/// After a transfer that commits, the request has no block left here: each of its blocks lost one
/// reference, those without other holders are gone, and no other block and no byte has changed.
pub proof fn committed_transfer_releases_the_request(
    s: ManagerState,
    t: ManagerState,
    req: u64,
    id: u32,
)
    requires
        s.inv(),
        req != SHARED_SENTINEL,
        transfer::moved_away(s, t, req),
    ensures
        t.pool.blocks_of(req).len() == 0,
        t.memory == s.memory,
        t.config == s.config,
        s.pool.blocks_of(req).contains(id) ==> {
            &&& s.pool.live(id)
            &&& t.pool.live(id) <==> s.pool.metas[id].ref_count > 1
            &&& t.pool.live(id) ==> t.pool.metas[id].ref_count == s.pool.metas[id].ref_count - 1
        },
        !s.pool.blocks_of(req).contains(id) ==> {
            &&& t.pool.live(id) == s.pool.live(id)
            &&& s.pool.live(id) ==> t.pool.metas[id].ref_count == s.pool.metas[id].ref_count
        },
{
    let read = choose|read: ManagerState| #[trigger]
        s.same_but_touched(read) && t == read.with_pool(read.pool.release_request(req));
    accesses_keep_the_blocks(s, read, id, req);
    behaviour::accesses_change_nothing_else(s.pool, read.pool, id);
    touched_keeps_inv(s, read);
    pool::laws::release_request_is_exact(read.pool, req, id);
}

proof fn touched_keeps_inv(s: ManagerState, t: ManagerState)
    requires
        s.inv(),
        s.same_but_touched(t),
    ensures
        t.pool.inv(),
{
    let a = s.pool;
    let b = t.pool;
    pool::laws::slots_unchanged(a, b);
    assert forall|id: u32| b.live(id) == a.live(id) by {}
    assert forall|i: int, id: u32|
        #![trigger b.free[i], b.live(id)]
        0 <= i < b.free.len() && b.live(id) implies b.slot(b.free[i]) != b.slot(id) by {
        assert(a.live(id));
        assert(a.free[i] == b.free[i]);
    }
    assert forall|x: u32, y: u32|
        #![trigger b.live(x), b.live(y)]
        b.live(x) && b.live(y) && x != y implies b.slot(x) != b.slot(y) by {
        assert(a.live(x) && a.live(y));
    }
    assert forall|k: int| 0 <= k < b.total implies #[trigger] b.occupied(k) || b.vacant(k) by {
        assert(a.occupied(k) || a.vacant(k));
    }
    assert forall|id: u32| #[trigger] b.live(id) implies {
        &&& b.total > 0
        &&& b.metas[id].block_id.0 == id
        &&& b.metas[id].ref_count >= 1
        &&& b.metas[id].req_id is Some
    } by {
        assert(a.live(id));
    }
    assert forall|req: u64|
        #![trigger b.owned.dom().contains(req)]
        b.owned.dom().contains(req) && req != SHARED_SENTINEL implies b.list_ok(req) by {
        assert(a.list_ok(req));
        assert forall|i: int| 0 <= i < b.owned[req].len() implies {
            &&& b.live(#[trigger] b.owned[req][i])
            &&& b.metas[b.owned[req][i]].req_id == Some(req)
        } by {
            assert(a.live(a.owned[req][i]));
        }
    }
}

/// A transfer whose reservation is refused sends nothing, and reports the refusal.
pub proof fn refused_transfer_sends_nothing<T, B: DeviceBackend>(
    s: ManagerState,
    device: B,
    req: u64,
    target: RankId,
    states: Seq<T>,
    log: Seq<(TransferAction, TransferEvent)>,
    r: Result<u32>,
    e: BackendError,
)
    requires
        transfer::well_run(s, device, req, target, states, log, r),
        log[0].1 == TransferEvent::Reserved(Err(e)),
    ensures
        log.len() == 1,
        forall|j: int| 0 <= j < log.len() ==> !((#[trigger] log[j]).0 is Push),
        r == Err::<u32, TesseraError>(TesseraError::Backend(e)),
{
}

/// A transfer that commits has asked for a slot per block, pushed every block of the request to the
/// target, once and in order, byte for byte, and given nothing back.
pub proof fn committed_transfer_sends_every_block<T, B: DeviceBackend>(
    s: ManagerState,
    device: B,
    req: u64,
    target: RankId,
    states: Seq<T>,
    log: Seq<(TransferAction, TransferEvent)>,
    n: u32,
    i: int,
    k: int,
)
    requires
        s.inv(),
        transfer::well_run(s, device, req, target, states, log, Ok::<u32, TesseraError>(n)),
        0 <= i < s.pool.blocks_of(req).len() <= u32::MAX,
    ensures
        ({
            let blocks = s.pool.blocks_of(req);
            let id = blocks[i];
            let slot = id as int % s.pool.total as int;
            &&& log.len() == blocks.len() + 1
            &&& log[0].0 matches TransferAction::Reserve { target: dst, req_id, count }
            &&& dst == target
            &&& req_id == req
            &&& count == blocks.len()
            &&& forall|j: int| 0 <= j < log.len() ==> !((#[trigger] log[j]).0 is Rollback)
            &&& log[i + 1].0 matches TransferAction::Push { target: to, payload }
            &&& to == target
            &&& payload.c_kv@.len() == s.config.primary_size()
            &&& payload.k_rope@.len() == s.config.rope_size()
            &&& 0 <= k < payload.c_kv@.len() ==> payload.c_kv@[k]
                == s.memory[s.primary_base.region as int][slot * s.config.primary_size() + k]
            &&& 0 <= k < payload.k_rope@.len() ==> payload.k_rope@[k]
                == s.memory[s.rope_base.region as int][slot * s.config.rope_size() + k]
            &&& log[i + 1].1 matches TransferEvent::Pushed(answer)
            &&& answer is Ok
        }),
{
    let blocks = s.pool.blocks_of(req);
    let entry = log[i + 1];
    assert(entry.0 is Push);
    exports_copy_the_bytes(s, blocks[i], entry.0->Push_payload, k);
    if i + 1 == log.len() - 1 {
        assert(entry == log.last());
    } else {
        assert(transfer::arrived(log[i + 1].1));
    }
    assert forall|j: int| 0 <= j < log.len() implies !((#[trigger] log[j]).0 is Rollback) by {
        if j > 0 {
            assert(log[j].0 is Push);
        }
    }
}

/// A transfer that fails after its reservation was granted gives the reservation back: that, to the
/// target and with the token that was granted, is the last thing it does, and it does it once.
pub proof fn failed_transfer_gives_the_reservation_back<T, B: DeviceBackend>(
    s: ManagerState,
    device: B,
    req: u64,
    target: RankId,
    states: Seq<T>,
    log: Seq<(TransferAction, TransferEvent)>,
    cause: TesseraError,
    token: ReservationToken,
    j: int,
)
    requires
        transfer::well_run(s, device, req, target, states, log, Err::<u32, TesseraError>(cause)),
        log[0].1 == TransferEvent::Reserved(Ok(token)),
        0 <= j < log.len(),
    ensures
        log.last().0 == (TransferAction::Rollback { target, token }),
        log[j].0 is Rollback <==> j == log.len() - 1,
        log.len() <= s.pool.blocks_of(req).len() + 2,
{
    if 0 < j < log.len() - 1 {
        assert(log[j].0 is Push);
    }
}

/// As many slots are asked for as there are blocks, up to the largest number that can be asked for.
pub proof fn slots_for_every_block(n: nat)
    ensures
        n <= u32::MAX ==> transfer::slots_for(n) == n,
        n > u32::MAX ==> transfer::slots_for(n) == u32::MAX,
{
}

/// A transfer that fails reports why: the error of the push that failed, if one did. Every push
/// before that arrived.
pub proof fn failed_transfer_reports_the_cause<T, B: DeviceBackend>(
    s: ManagerState,
    device: B,
    req: u64,
    target: RankId,
    states: Seq<T>,
    log: Seq<(TransferAction, TransferEvent)>,
    cause: TesseraError,
    token: ReservationToken,
    e: BackendError,
    j: int,
)
    requires
        transfer::well_run(s, device, req, target, states, log, Err::<u32, TesseraError>(cause)),
        log[0].1 == TransferEvent::Reserved(Ok(token)),
    ensures
        log.len() > 2 && log[log.len() - 2].1 == TransferEvent::Pushed(Err(e)) ==> cause
            == TesseraError::Backend(e),
        0 < j < log.len() - 2 ==> (log[j].1 matches TransferEvent::Pushed(answer) && answer is Ok),
{
    if 0 < j < log.len() - 2 {
        assert(transfer::arrived(log[j].1));
    }
}

/// A manager can be built if and only if its rank is one of the world's and the budget makes a
/// pool.
pub proof fn managers_need_a_rank_and_a_budget(
    config: MlaBlockConfig,
    memory_bytes: u64,
    rank: RankId,
    world: World,
)
    ensures
        block_manager::construction_fault(config, memory_bytes, rank, world) is None <==> rank.0
            < world.size && block_manager::budget_fault(config, memory_bytes) is None,
        rank.0 < world.size ==> block_manager::construction_fault(config, memory_bytes, rank, world)
            == block_manager::budget_fault(config, memory_bytes),
{
}

/// A part of a payload that is shorter than the part of a block fills its beginning and leaves the
/// rest; a payload without scale factors leaves those of the block.
pub proof fn short_parts_fill_the_beginning(
    s: ManagerState,
    req: u64,
    range: TokenRange,
    p: BlockPayload,
    k: int,
)
    requires
        s.inv(),
        s.incoming(req).pool.has_room(),
        p.c_kv@.len() == s.config.primary_size(),
        p.k_rope@.len() <= s.config.rope_size(),
        p.fp8_scales matches Some(scales) ==> scales@.len() <= s.config.scale_size(),
    ensures
        ({
            let id = s.incoming(req).pool.next_block();
            let t = s.import(req, range, p);
            &&& t.primary(id) == p.c_kv@
            &&& 0 <= k < s.config.rope_size() ==> t.rope(id)[k] == (if k < p.k_rope@.len() {
                p.k_rope@[k]
            } else {
                s.rope(id)[k]
            })
            &&& s.scales_base is Some && 0 <= k < s.config.scale_size() ==> t.scales(id)[k] == (
            match p.fp8_scales {
                Some(scales) => if k < scales@.len() {
                    scales@[k]
                } else {
                    s.scales(id)[k]
                },
                None => s.scales(id)[k],
            })
        }),
{
    pool::laws::claimed_keeps_inv(s.pool, req);
    let a = s.incoming(req);
    let id = a.pool.next_block();
    let t = s.import(req, range, p);
    pool::laws::allocate_keeps_inv(a.pool, req, range, s.config.ckv_dtype);
    pool::laws::evict_keeps_total(a.pool);
    assert(a.pool.total == s.pool.total);
    assert(t.pool.total == s.pool.total);
    assert(a.pool.total > 0);
    state::block_lies_in_its_regions(a, id);
    let m1 = a.primary_imported(p);
    let m2 = a.rope_imported(p);
    let m3 = a.all_imported(p);
    assert(t.memory == m3);
    state::write_keeps_inv(a, a.primary_at(id), p.c_kv@);
    device::read_after_write(s.memory, a.primary_at(id), p.c_kv@);
    if s.config.rope_size() > 0 {
        state::write_keeps_inv(a.with_memory(m1), a.rope_at(id), p.k_rope@);
    }
    assert(m2[s.primary_base.region as int] == m1[s.primary_base.region as int]);
    assert(m3[s.primary_base.region as int] == m2[s.primary_base.region as int]);
    assert(m3[s.rope_base.region as int] == m2[s.rope_base.region as int]);
    assert(t.primary(id) =~= device::bytes_at(m1, a.primary_at(id), s.config.primary_size()));
    if s.config.primary_size() == 0 {
        assert(t.primary(id) =~= p.c_kv@);
    }
    if 0 <= k < s.config.rope_size() {
        let r = s.rope_base.region as int;
        let at = a.rope_at(id).offset + k;
        assert(t.rope(id)[k] == m2[r][at]);
        assert(s.rope(id)[k] == s.memory[r][at]);
        assert(m1[r] == s.memory[r]);
    }
    if s.scales_base is Some && 0 <= k < s.config.scale_size() {
        let r = s.scales_base->0.region as int;
        let at = a.scales_at(id).offset + k;
        assert(t.scales(id)[k] == m3[r][at]);
        assert(s.scales(id)[k] == s.memory[r][at]);
        assert(m2[r] == s.memory[r]);
    }
}

/// A dependable device refuses nothing that fits. Where the parts of a block fit host memory, an
/// allocated block can be exported, and a payload of the right shape is imported as long as there
/// is room.
pub proof fn dependable_devices_do_not_fail<B: DeviceBackend>(
    s: ManagerState,
    t: ManagerState,
    device: B,
    id: u32,
    exported: Result<BlockPayload>,
    req: u64,
    range: TokenRange,
    p: BlockPayload,
    imported: Result<crate::block::BlockId>,
)
    requires
        s.inv(),
        device.dependable(),
        s.config.primary_size() <= usize::MAX,
        s.config.rope_size() <= usize::MAX,
        s.config.scale_size() <= usize::MAX,
    ensures
        state::exported(s, t, device, id, exported) ==> (exported is Ok <==> s.pool.live(id)),
        state::imported(s, t, true, req, range, p, imported) && laws::fits_block(s, p) ==> (
        imported is Ok <==> s.incoming(req).pool.has_room()),
{
    if s.incoming(req).pool.has_room() && laws::fits_block(s, p) {
        laws::import_round_trip(s, req, range, p, id);
    }
}

/// Why the primary part of a block cannot be had: it is not allocated, and then that is the reason
/// that is given; or it does not fit host memory; or the device is not dependable.
pub proof fn unreadable_blocks_have_a_reason(
    e: TesseraError,
    s: ManagerState,
    id: u32,
    dependable: bool,
)
    requires
        state::primary_unreadable(e, s, id, dependable),
    ensures
        !s.pool.live(id) ==> e == TesseraError::UnknownBlock(id),
        s.pool.live(id) && s.config.primary_size() <= usize::MAX ==> !dependable && e is Backend,
        e is UnknownBlock ==> !s.pool.live(id),
{
}

} // verus!
