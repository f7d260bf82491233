//! Mathematical state of a block manager: the bookkeeping of its pool and the bytes on its
//! device.

use vstd::prelude::*;

use crate::block::{BlockId, TokenRange};
use crate::config::MlaBlockConfig;
use crate::device::{self, DeviceBackend, DevicePtr};
use crate::error::{BackendError, Result, TesseraError};
use crate::pool::{self, PoolState};
use crate::rank::RankId;
use crate::text;
use crate::transport::{BlockPayload, ReservationToken};

verus! {

/// Mathematical state of a block manager.
#[verifier::ext_equal]
pub struct ManagerState {
    /// Bookkeeping of the pool.
    pub pool: PoolState,
    /// Contents of the regions on the device.
    pub memory: Seq<Seq<u8>>,
    /// Configuration, which determines the size of a block.
    pub config: MlaBlockConfig,
    /// Rank of the manager.
    pub rank: RankId,
    /// Region that holds the primary part of every block.
    pub primary_base: DevicePtr,
    /// Region that holds the position-dependent part of every block.
    pub rope_base: DevicePtr,
    /// Region that holds the scale factors of every block, if there are any.
    pub scales_base: Option<DevicePtr>,
}

/// Whether `base` addresses a whole region of `memory`, of `size` bytes.
pub open spec fn spans_region(memory: Seq<Seq<u8>>, base: DevicePtr, size: int) -> bool {
    &&& (base.region as int) < memory.len()
    &&& base.offset == 0
    &&& base.len == size
    &&& memory[base.region as int].len() == size
}

/// Handle to all of region `index`, which holds `size` bytes.
pub open spec fn whole_region(index: nat, size: int) -> DevicePtr {
    DevicePtr { region: index as u32, offset: 0, len: size as u64 }
}

impl ManagerState {
    /// Whether this is the state of a manager of `total` blocks as it was built on a device that
    /// held the regions `before`: nothing is allocated, and the parts of the blocks have the
    /// next regions, which hold zeros if the device clears them.
    pub open spec fn built(
        self,
        config: MlaBlockConfig,
        rank: RankId,
        total: u32,
        before: Seq<Seq<u8>>,
        cleared: bool,
    ) -> bool {
        let n = before.len();
        &&& self.pool == PoolState::empty(total)
        &&& self.config == config
        &&& self.rank == rank
        &&& self.primary_base == whole_region(n, config.primary_size() * total)
        &&& self.rope_base == whole_region(n + 1, config.rope_size() * total)
        &&& self.scales_base == (if config.scale_size() > 0 {
            Some(whole_region(n + 2, config.scale_size() * total))
        } else {
            None
        })
        &&& self.memory.len() == (if config.scale_size() > 0 {
            n + 3
        } else {
            n + 2
        })
        &&& self.memory.take(n as int) == before
        &&& cleared ==> forall|i: int|
            n <= i < self.memory.len() ==> #[trigger] self.memory[i] == device::repeated(
                0,
                self.memory[i].len(),
            )
    }

    /// Invariant of a block manager: the pool is consistent, and each part of the blocks has a
    /// region of its own with room for every block.
    pub open spec fn inv(self) -> bool {
        let total = self.pool.total as int;
        &&& self.pool.inv()
        &&& self.config.fits()
        &&& spans_region(self.memory, self.primary_base, self.config.primary_size() * total)
        &&& spans_region(self.memory, self.rope_base, self.config.rope_size() * total)
        &&& self.primary_base.region != self.rope_base.region
        &&& self.scales_base is Some <==> self.config.scale_size() > 0
        &&& self.scales_base matches Some(base) ==> {
            &&& spans_region(self.memory, base, self.config.scale_size() * total)
            &&& base.region != self.primary_base.region
            &&& base.region != self.rope_base.region
        }
    }

    /// Handle to the primary part of block `id`.
    pub open spec fn primary_at(self, id: u32) -> DevicePtr {
        self.primary_base.advanced(self.pool.slot(id) as nat * self.config.primary_size())
    }

    /// Handle to the position-dependent part of block `id`.
    pub open spec fn rope_at(self, id: u32) -> DevicePtr {
        self.rope_base.advanced(self.pool.slot(id) as nat * self.config.rope_size())
    }

    /// Handle to the scale factors of block `id`.
    pub open spec fn scales_at(self, id: u32) -> DevicePtr {
        self.scales_base->0.advanced(self.pool.slot(id) as nat * self.config.scale_size())
    }

    /// Bytes of the primary part of block `id`.
    pub open spec fn primary(self, id: u32) -> Seq<u8> {
        device::bytes_at(self.memory, self.primary_at(id), self.config.primary_size())
    }

    /// Bytes of the position-dependent part of block `id`.
    pub open spec fn rope(self, id: u32) -> Seq<u8> {
        device::bytes_at(self.memory, self.rope_at(id), self.config.rope_size())
    }

    /// Bytes of the scale factors of block `id`.
    pub open spec fn scales(self, id: u32) -> Seq<u8> {
        device::bytes_at(self.memory, self.scales_at(id), self.config.scale_size())
    }

    /// The state with other bookkeeping.
    pub open spec fn with_pool(self, pool: PoolState) -> ManagerState {
        ManagerState { pool, ..self }
    }

    /// The state with other bytes on the device.
    pub open spec fn with_memory(self, memory: Seq<Seq<u8>>) -> ManagerState {
        ManagerState { memory, ..self }
    }

    /// Record an access to block `id`.
    pub open spec fn touch(self, id: u32) -> ManagerState {
        self.with_pool(self.pool.touch(id))
    }

    /// Whether `other` differs at most in the times of the last accesses.
    pub open spec fn same_but_touched(self, other: ManagerState) -> bool {
        &&& other == self.with_pool(other.pool)
        &&& self.pool.same_but_touched(other.pool)
    }

    /// Accesses that reading all parts of block `id` makes.
    pub open spec fn touched_for_transfer(self, id: u32) -> ManagerState {
        if self.config.rope_size() > 0 {
            self.touch(id).touch(id)
        } else {
            self.touch(id)
        }
    }

    /// Whether sealing block `id` with content hash `hash` finds another live block with the
    /// same bytes under that hash.
    pub open spec fn finds_duplicate(self, id: u32, hash: u64) -> bool {
        &&& self.pool.index.dom().contains(hash)
        &&& self.pool.index[hash] != id
        &&& self.pool.live(self.pool.index[hash])
        &&& self.primary(self.pool.index[hash]) == self.primary(id)
    }

    /// State after block `id` was sealed with content hash `hash`.
    pub open spec fn seal(self, id: u32, hash: u64) -> ManagerState {
        let s = self.touch(id);
        if !s.pool.index.dom().contains(hash) {
            s.with_pool(s.pool.publish(id, hash))
        } else {
            let canonical = s.pool.index[hash];
            if canonical == id {
                s.with_pool(s.pool.mark(id, hash))
            } else {
                let compared = s.touch(id).touch(canonical);
                if self.finds_duplicate(id, hash) {
                    compared.with_pool(compared.pool.retain(canonical).reclaim(id))
                } else {
                    compared.with_pool(compared.pool.mark(id, hash))
                }
            }
        }
    }

    /// The pool in which a fork of block `id` looks for a free block: the source is pinned.
    pub open spec fn pinned(self, id: u32) -> PoolState {
        self.pool.retain(id)
    }

    /// The pool in which the fork of block `id` for `req` has been allocated.
    pub open spec fn forked_pool(self, id: u32, req: u64) -> PoolState {
        self.pinned(id).allocate(req, self.pool.metas[id].token_range, self.config.ckv_dtype)
    }

    /// Memory after the primary part of block `src` was copied to block `dst`.
    pub open spec fn primary_copied(self, src: u32, dst: u32) -> Seq<Seq<u8>> {
        device::copied(
            self.memory,
            self.primary_at(src),
            self.primary_at(dst),
            self.config.primary_size(),
        )
    }

    /// Memory after the primary and the position-dependent part of block `src` were copied to
    /// block `dst`.
    pub open spec fn rope_copied(self, src: u32, dst: u32) -> Seq<Seq<u8>> {
        device::copied(
            self.primary_copied(src, dst),
            self.rope_at(src),
            self.rope_at(dst),
            self.config.rope_size(),
        )
    }

    /// Memory after all parts of block `src` were copied to block `dst`.
    pub open spec fn block_copied(self, src: u32, dst: u32) -> Seq<Seq<u8>> {
        if self.scales_base is Some {
            device::copied(
                self.rope_copied(src, dst),
                self.scales_at(src),
                self.scales_at(dst),
                self.config.scale_size(),
            )
        } else {
            self.rope_copied(src, dst)
        }
    }

    /// State after block `id` was forked for `req`.
    pub open spec fn fork(self, id: u32, req: u64) -> ManagerState {
        let new = self.pinned(id).next_block();
        let first = self.forked_pool(id, req).touch(id).touch(new);
        let second = if self.config.rope_size() > 0 {
            first.touch(id).touch(new)
        } else {
            first
        };
        ManagerState {
            pool: second.release(id),
            memory: self.block_copied(id, new),
            ..self
        }
    }

    /// Whether `payload` is a copy of all parts of block `id`.
    pub open spec fn holds(self, id: u32, payload: BlockPayload) -> bool {
        &&& payload.c_kv@ == self.primary(id)
        &&& payload.k_rope@ == self.rope(id)
        &&& payload.fp8_scales is Some <==> self.scales_base is Some
        &&& payload.fp8_scales matches Some(scales) ==> scales@ == self.scales(id)
    }

    /// The pool after a block was allocated for an incoming payload.
    pub open spec fn imported_pool(self, req: u64, range: TokenRange) -> PoolState {
        self.pool.allocate(req, range, self.config.ckv_dtype)
    }

    /// Memory after the primary part of a payload was written to the next block.
    pub open spec fn primary_imported(self, payload: BlockPayload) -> Seq<Seq<u8>> {
        device::written(
            self.memory,
            self.primary_at(self.pool.next_block()),
            payload.c_kv@,
        )
    }

    /// Memory after the primary and the position-dependent part of a payload were written.
    pub open spec fn rope_imported(self, payload: BlockPayload) -> Seq<Seq<u8>> {
        if self.config.rope_size() > 0 {
            device::written(
                self.primary_imported(payload),
                self.rope_at(self.pool.next_block()),
                payload.k_rope@,
            )
        } else {
            self.primary_imported(payload)
        }
    }

    /// Memory after all parts of a payload were written.
    pub open spec fn all_imported(self, payload: BlockPayload) -> Seq<Seq<u8>> {
        match payload.fp8_scales {
            Some(scales) => if self.scales_base is Some {
                device::written(
                    self.rope_imported(payload),
                    self.scales_at(self.pool.next_block()),
                    scales@,
                )
            } else {
                self.rope_imported(payload)
            },
            None => self.rope_imported(payload),
        }
    }

    /// Whether the parts of a payload that have no prescribed length fit their regions.
    pub open spec fn accepts(self, payload: BlockPayload) -> bool {
        let id = self.pool.next_block();
        &&& self.config.rope_size() > 0 ==> payload.k_rope@.len() == 0 || device::in_range(
            self.memory,
            self.rope_at(id),
            payload.k_rope@.len(),
        )
        &&& payload.fp8_scales matches Some(scales) ==> self.scales_base is Some ==> scales@.len()
            == 0 || device::in_range(self.memory, self.scales_at(id), scales@.len())
    }

    /// The state in which a payload arriving for `req` is stored: one slot of its reservation has
    /// been used up, if there is one.
    pub open spec fn incoming(self, req: u64) -> ManagerState {
        self.with_pool(self.pool.claimed(req))
    }

    /// State after a payload was imported for `req`.
    pub open spec fn import(
        self,
        req: u64,
        range: TokenRange,
        payload: BlockPayload,
    ) -> ManagerState {
        self.incoming(req).store(req, range, payload)
    }

    /// State after a payload was stored in the next block.
    pub open spec fn store(
        self,
        req: u64,
        range: TokenRange,
        payload: BlockPayload,
    ) -> ManagerState {
        let id = self.pool.next_block();
        ManagerState {
            pool: self.imported_pool(req, range),
            memory: self.all_imported(payload),
            ..self
        }.touched_for_transfer(id)
    }
}

/// A write within range keeps the invariant: it changes bytes, not regions.
pub proof fn write_keeps_inv(s: ManagerState, ptr: DevicePtr, bytes: Seq<u8>)
    requires
        s.inv(),
        bytes.len() == 0 || device::in_range(s.memory, ptr, bytes.len()),
    ensures
        s.with_memory(device::written(s.memory, ptr, bytes)).inv(),
        forall|other: DevicePtr, len: nat| #[trigger]
            device::in_range(device::written(s.memory, ptr, bytes), other, len)
                == device::in_range(s.memory, other, len),
{
    let t = device::written(s.memory, ptr, bytes);
    assert(t.len() == s.memory.len());
    assert forall|i: int| 0 <= i < t.len() implies (#[trigger] t[i]).len()
        == s.memory[i].len() by {}
}

/// A copy within range keeps the invariant: it changes bytes, not regions.
pub proof fn copy_keeps_inv(s: ManagerState, src: DevicePtr, dst: DevicePtr, len: nat)
    requires
        s.inv(),
        device::copy_in_range(s.memory, src, dst, len),
    ensures
        s.with_memory(device::copied(s.memory, src, dst, len)).inv(),
        forall|other: DevicePtr, n: nat| #[trigger]
            device::in_range(device::copied(s.memory, src, dst, len), other, n)
                == device::in_range(s.memory, other, n),
{
    if len > 0 {
        write_keeps_inv(s, dst, device::bytes_at(s.memory, src, len));
    } else {
        assert(s.with_memory(s.memory) =~= s);
    }
}

/// Why the primary part of block `id` cannot be read or filled: the block is not allocated, the
/// part does not fit host memory, or the device fails.
pub open spec fn primary_unreadable(
    e: TesseraError,
    s: ManagerState,
    id: u32,
    dependable: bool,
) -> bool {
    if !s.pool.live(id) {
        e == TesseraError::UnknownBlock(id)
    } else if s.config.primary_size() > usize::MAX {
        e.is_invalid_config("primary bytes overflow usize"@)
    } else {
        e is Backend && !dependable
    }
}

/// Whether `e` is an error that reading from `device` may give.
pub open spec fn read_failure<B: DeviceBackend>(device: B, e: BackendError) -> bool {
    exists|ptr: DevicePtr, len: usize|
        #[trigger]
        call_ensures(B::read_bytes, (&device, ptr, len), Err::<Vec<u8>, BackendError>(e))
}

/// Why reading a block can fail: a part does not fit host memory, or the device fails.
pub open spec fn unreadable<B: DeviceBackend>(e: TesseraError, s: ManagerState, device: B) -> bool {
    ||| s.config.primary_size() > usize::MAX && e.is_invalid_config(
        "primary bytes overflow usize"@,
    )
    ||| s.config.rope_size() > usize::MAX && e.is_invalid_config("rope bytes overflow usize"@)
    ||| s.config.scale_size() > usize::MAX && e.is_invalid_config(
        "fp8 scale bytes overflow usize"@,
    )
    ||| !device.dependable() && (e matches TesseraError::Backend(cause) && read_failure(
        device,
        cause,
    ))
}

/// What reading all parts of block `id` comes to: a copy of the block, or the reason why there is
/// none. The block counts as touched.
pub open spec fn exported<B: DeviceBackend>(
    before: ManagerState,
    after: ManagerState,
    device: B,
    id: u32,
    r: Result<BlockPayload>,
) -> bool {
    match r {
        Ok(p) => {
            &&& before.pool.live(id)
            &&& after == before.touched_for_transfer(id)
            &&& before.holds(id, p)
        },
        Err(e) => if !before.pool.live(id) {
            &&& e == TesseraError::UnknownBlock(id)
            &&& after == before
        } else {
            &&& before.same_but_touched(after)
            &&& unreadable(e, before, device)
        },
    }
}

/// What importing a payload for `req` comes to: a new block that holds it, or the reason why there
/// is none. The block takes a slot of its reservation, if there is one. The length of the
/// payload's primary part must be that of a block. A device failure leaves the new block
/// allocated.
pub open spec fn imported(
    before: ManagerState,
    after: ManagerState,
    dependable: bool,
    req: u64,
    range: TokenRange,
    payload: BlockPayload,
    r: Result<BlockId>,
) -> bool {
    let s = before.incoming(req);
    match r {
        Ok(id) => {
            &&& before.config.primary_size() == payload.c_kv@.len()
            &&& s.pool.has_room()
            &&& id.0 == s.pool.next_block()
            &&& after == before.import(req, range, payload)
        },
        Err(e) => if before.config.primary_size() > usize::MAX {
            &&& e.is_invalid_config("primary bytes overflow usize"@)
            &&& after == before
        } else if before.config.primary_size() != payload.c_kv@.len() {
            &&& e.is_invalid_config(
                "import_payload: c_kv length "@ + text::decimal(payload.c_kv@.len())
                    + " doesn't match primary_block_bytes "@ + text::decimal(
                    before.config.primary_size(),
                ),
            )
            &&& after == before
        } else if !s.pool.has_room() {
            &&& e == (TesseraError::OutOfBlocks {
                used: before.pool.used() as u32,
                total: before.pool.total,
            })
            &&& after == before
        } else {
            &&& e is Backend
            &&& !(dependable && s.accepts(payload))
            &&& after == (ManagerState { pool: after.pool, memory: after.memory, ..before })
            &&& s.imported_pool(req, range).same_but_touched(after.pool)
            &&& after.memory == s.memory || after.memory == s.primary_imported(payload)
                || after.memory == s.rope_imported(payload)
        },
    }
}

/// What reserving `count` slots for `req` comes to: a token that holds the rank and a counter, or
/// a refusal. Slots that other reservations hold do not count. Blocks have been evicted to make up
/// a shortfall.
pub open spec fn reserved(
    before: ManagerState,
    after: ManagerState,
    req: u64,
    count: u32,
    r: Result<ReservationToken>,
) -> bool {
    let room = before.pool.with_capacity(count);
    match r {
        Ok(token) => {
            &&& room.spare() >= count
            &&& token.0 == pool::state::token_of(before.rank.0, before.pool.next_reservation)
            &&& after == before.with_pool(room.reserve(before.rank.0, req, count))
        },
        Err(e) => {
            &&& room.spare() < count
            &&& e == (TesseraError::OutOfBlocks {
                used: room.used() as u32,
                total: before.pool.total,
            })
            &&& after == before.with_pool(room)
        },
    }
}

/// The parts of a block lie within the regions of the manager.
pub proof fn block_lies_in_its_regions(s: ManagerState, id: u32)
    requires
        s.inv(),
        s.pool.total > 0,
    ensures
        s.pool.slot(id) * s.config.primary_size() <= s.primary_base.len,
        s.primary_at(id).region == s.primary_base.region,
        s.primary_at(id).offset == s.pool.slot(id) * s.config.primary_size(),
        device::in_range(s.memory, s.primary_at(id), s.config.primary_size()),
        s.pool.slot(id) * s.config.rope_size() <= s.rope_base.len,
        s.rope_at(id).region == s.rope_base.region,
        s.rope_at(id).offset == s.pool.slot(id) * s.config.rope_size(),
        device::in_range(s.memory, s.rope_at(id), s.config.rope_size()),
        s.scales_base matches Some(base) ==> {
            &&& s.pool.slot(id) * s.config.scale_size() <= base.len
            &&& s.scales_at(id).region == base.region
            &&& s.scales_at(id).offset == s.pool.slot(id) * s.config.scale_size()
            &&& device::in_range(s.memory, s.scales_at(id), s.config.scale_size())
        },
{
    let k = s.pool.slot(id);
    pool::state::renewed_keeps_slot(id, s.pool.total);
    device::slot_fits(k, s.pool.total as int, s.config.primary_size() as int);
    device::slot_fits(k, s.pool.total as int, s.config.rope_size() as int);
    device::slot_fits(k, s.pool.total as int, s.config.scale_size() as int);
}

} // verus!
