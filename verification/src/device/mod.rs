//! Device backend abstraction. The block manager is parameterised over [`DeviceBackend`], so the
//! same code runs against host memory, a GPU or a file system.

use vstd::prelude::*;

use crate::error::BackendError;

pub mod cpu_mock;
pub mod disk;
pub mod regions;

pub use cpu_mock::CpuMockBackend;
pub use disk::{DiskBackend, SwaCachingStrategy};

verus! {

/// Handle into a backend allocation: a byte range of one region. Backends look the region up by
/// its index and reject offsets and lengths that exceed it, so a handle cannot reach into a
/// neighbouring region.
#[derive(Debug, Clone, Copy, PartialEq, Eq, Hash, Structural)]
pub struct DevicePtr {
    /// Region index this handle belongs to.
    pub region: u32,
    /// Byte offset from the start of the region.
    pub offset: u64,
    /// Remaining length addressable from this handle.
    pub len: u64,
}

impl DevicePtr {
    /// The handle that starts `by` bytes further on.
    pub open spec fn advanced(self, by: nat) -> DevicePtr {
        DevicePtr {
            region: self.region,
            offset: (self.offset + by) as u64,
            len: (self.len - by) as u64,
        }
    }

    /// Construct a handle to a whole region.
    pub fn from_region(region: u32, len: u64) -> (p: DevicePtr)
        ensures
            p == (DevicePtr { region, offset: 0, len }),
    {
        DevicePtr { region, offset: 0, len }
    }

    /// Derive a handle that starts `by` bytes after this one and ends where it ends.
    pub fn offset(self, by: u64) -> (p: DevicePtr)
        requires
            by <= self.len,
            self.offset + by <= u64::MAX,
        ensures
            p == self.advanced(by as nat),
            p.region == self.region,
            p.offset == self.offset + by,
            p.len == self.len - by,
    {
        DevicePtr { region: self.region, offset: self.offset + by, len: self.len - by }
    }

    /// Region index this handle belongs to.
    pub fn region(self) -> (r: u32)
        ensures
            r == self.region,
    {
        self.region
    }

    /// Byte offset from the start of the region.
    pub fn region_offset(self) -> (r: u64)
        ensures
            r == self.offset,
    {
        self.offset
    }

    /// Remaining length addressable from this handle.
    pub fn len(self) -> (r: u64)
        ensures
            r == self.len,
    {
        self.len
    }

    /// `true` when the handle addresses no bytes.
    pub fn is_empty(self) -> (r: bool)
        ensures
            r == (self.len == 0),
    {
        self.len == 0
    }
}

/// Advancing a handle in two steps or in one leads to the same place.
pub proof fn advancing_composes(p: DevicePtr, a: u64, b: u64)
    requires
        a + b <= p.len,
        p.offset + a + b <= u64::MAX,
    ensures
        p.advanced(a as nat).advanced(b as nat) == p.advanced((a + b) as nat),
{
}

/// Region kind for diagnostics and metric labels.
#[derive(Debug, Clone, Copy, PartialEq, Eq, Structural)]
pub enum RegionKind {
    /// The primary KV region.
    Primary,
    /// Position-dependent secondary region.
    Rope,
    /// Per-layer FP8 scale factors.
    Fp8Scales,
}

impl RegionKind {
    /// Name of the kind in logs and file names.
    pub open spec fn label(self) -> Seq<char> {
        match self {
            RegionKind::Primary => "primary"@,
            RegionKind::Rope => "rope"@,
            RegionKind::Fp8Scales => "fp8_scales"@,
        }
    }

    /// Short name for logs.
    pub fn as_str(self) -> (s: &'static str)
        ensures
            s@ == self.label(),
    {
        match self {
            RegionKind::Primary => "primary",
            RegionKind::Rope => "rope",
            RegionKind::Fp8Scales => "fp8_scales",
        }
    }
}

/// Whether `len` bytes from `ptr` on lie within one of the regions.
pub open spec fn in_range(regions: Seq<Seq<u8>>, ptr: DevicePtr, len: nat) -> bool {
    &&& (ptr.region as int) < regions.len()
    &&& ptr.offset + len <= regions[ptr.region as int].len()
}

/// The `len` bytes from `ptr` on.
pub open spec fn bytes_at(regions: Seq<Seq<u8>>, ptr: DevicePtr, len: nat) -> Seq<u8> {
    regions[ptr.region as int].subrange(ptr.offset as int, ptr.offset + len)
}

/// `region` with `bytes` in place of what stood from `offset` on.
pub open spec fn overwritten(region: Seq<u8>, offset: nat, bytes: Seq<u8>) -> Seq<u8> {
    Seq::new(
        region.len(),
        |i: int|
            if offset <= i < offset + bytes.len() {
                bytes[i - offset]
            } else {
                region[i]
            },
    )
}

/// The regions with `bytes` written at `ptr`. Writing nothing changes nothing.
pub open spec fn written(regions: Seq<Seq<u8>>, ptr: DevicePtr, bytes: Seq<u8>) -> Seq<Seq<u8>> {
    if bytes.len() == 0 {
        regions
    } else {
        regions.update(
            ptr.region as int,
            overwritten(regions[ptr.region as int], ptr.offset as nat, bytes),
        )
    }
}

/// `byte`, `len` times over.
pub open spec fn repeated(byte: u8, len: nat) -> Seq<u8> {
    Seq::new(len, |i: int| byte)
}

/// Whether a copy stays within the regions. Copying nothing always does.
pub open spec fn copy_in_range(
    regions: Seq<Seq<u8>>,
    src: DevicePtr,
    dst: DevicePtr,
    len: nat,
) -> bool {
    len == 0 || (in_range(regions, src, len) && in_range(regions, dst, len))
}

/// The regions after `len` bytes were copied from `src` to `dst`.
pub open spec fn copied(
    regions: Seq<Seq<u8>>,
    src: DevicePtr,
    dst: DevicePtr,
    len: nat,
) -> Seq<Seq<u8>> {
    if len == 0 {
        regions
    } else {
        written(regions, dst, bytes_at(regions, src, len))
    }
}

/// Operations a device backend must implement.
///
/// A backend holds regions of bytes. A request that runs past the end of its region is refused,
/// a refused request changes nothing, and a granted one changes the bytes it names and no
/// others. A backend that is [`DeviceBackend::dependable`] grants every request within range;
/// others may fail on their own account.
pub trait DeviceBackend: Sized + Send + Sync + 'static {
    /// Contents of the regions allocated so far.
    closed spec fn regions(&self) -> Seq<Seq<u8>> {
        arbitrary()
    }

    /// Whether every request within range is granted. By default nothing is promised.
    open spec fn dependable(&self) -> bool {
        false
    }

    /// Whether new regions hold zeros. By default nothing is promised.
    open spec fn clears(&self) -> bool {
        false
    }

    /// Name of the backend.
    closed spec fn label(&self) -> Seq<char> {
        arbitrary()
    }

    /// Allocate a contiguous region of `bytes` bytes and return a handle to all of it. The
    /// region gets the next free index.
    fn alloc_region(&mut self, bytes: u64, kind: RegionKind) -> (r: std::result::Result<
        DevicePtr,
        BackendError,
    >)
        ensures
            old(self).dependable() ==> final(self).dependable(),
            old(self).clears() ==> final(self).clears(),
            match r {
                Ok(ptr) => {
                    &&& old(self).regions().len() <= u32::MAX
                    &&& ptr == (DevicePtr {
                        region: old(self).regions().len() as u32,
                        offset: 0,
                        len: bytes,
                    })
                    &&& final(self).regions().len() == old(self).regions().len() + 1
                    &&& final(self).regions().drop_last() == old(self).regions()
                    &&& final(self).regions().last().len() == bytes
                    &&& old(self).clears() ==> final(self).regions().last() == repeated(
                        0,
                        bytes as nat,
                    )
                },
                Err(_) => {
                    &&& final(self).regions() == old(self).regions()
                    &&& !(old(self).dependable() && bytes <= usize::MAX
                        && old(self).regions().len() <= u32::MAX)
                },
            },
    ;

    /// Copy `bytes` from `src` to `dst`.
    fn memcpy(&mut self, src: DevicePtr, dst: DevicePtr, bytes: u64) -> (r: std::result::Result<
        (),
        BackendError,
    >)
        ensures
            old(self).dependable() ==> final(self).dependable(),
            match r {
                Ok(_) => {
                    &&& copy_in_range(old(self).regions(), src, dst, bytes as nat)
                    &&& final(self).regions() == copied(
                        old(self).regions(),
                        src,
                        dst,
                        bytes as nat,
                    )
                },
                Err(_) => {
                    &&& final(self).regions() == old(self).regions()
                    &&& !(old(self).dependable() && copy_in_range(
                        old(self).regions(),
                        src,
                        dst,
                        bytes as nat,
                    ))
                },
            },
    ;

    /// Read `len` bytes starting at `ptr` into host memory.
    fn read_bytes(&self, ptr: DevicePtr, len: usize) -> (r: std::result::Result<
        Vec<u8>,
        BackendError,
    >)
        ensures
            match r {
                Ok(v) => {
                    &&& in_range(self.regions(), ptr, len as nat)
                    &&& v@ == bytes_at(self.regions(), ptr, len as nat)
                },
                Err(_) => !(self.dependable() && in_range(self.regions(), ptr, len as nat)),
            },
    ;

    /// Overwrite `len` bytes starting at `ptr` with `byte`.
    fn fill_pattern(&mut self, ptr: DevicePtr, byte: u8, len: usize) -> (r: std::result::Result<
        (),
        BackendError,
    >)
        ensures
            old(self).dependable() ==> final(self).dependable(),
            match r {
                Ok(_) => {
                    &&& in_range(old(self).regions(), ptr, len as nat)
                    &&& final(self).regions() == written(
                        old(self).regions(),
                        ptr,
                        repeated(byte, len as nat),
                    )
                },
                Err(_) => {
                    &&& final(self).regions() == old(self).regions()
                    &&& !(old(self).dependable() && in_range(
                        old(self).regions(),
                        ptr,
                        len as nat,
                    ))
                },
            },
    ;

    /// Write `bytes` to the region starting at `ptr`.
    fn write_bytes(&mut self, ptr: DevicePtr, bytes: &[u8]) -> (r: std::result::Result<
        (),
        BackendError,
    >)
        ensures
            old(self).dependable() ==> final(self).dependable(),
            match r {
                Ok(_) => {
                    &&& bytes@.len() == 0 || in_range(old(self).regions(), ptr, bytes@.len())
                    &&& final(self).regions() == written(old(self).regions(), ptr, bytes@)
                },
                Err(_) => {
                    &&& final(self).regions() == old(self).regions()
                    &&& !(old(self).dependable() && (bytes@.len() == 0 || in_range(
                        old(self).regions(),
                        ptr,
                        bytes@.len(),
                    )))
                },
            },
    ;

    /// Backend-native device address for handles that have one.
    fn device_address(&self, ptr: DevicePtr) -> (r: Option<usize>)
        default_ensures
            r is None,
    {
        None
    }

    /// Name of this backend for diagnostics.
    fn name(&self) -> (s: &'static str)
        ensures
            s@ == self.label(),
    ;
}

/// What was written is what is read back.
pub proof fn read_after_write(regions: Seq<Seq<u8>>, ptr: DevicePtr, bytes: Seq<u8>)
    requires
        in_range(regions, ptr, bytes.len()),
    ensures
        bytes_at(written(regions, ptr, bytes), ptr, bytes.len()) == bytes,
{
    assert(bytes_at(written(regions, ptr, bytes), ptr, bytes.len()) =~= bytes);
}

/// A write leaves every byte outside the range it names as it was.
pub proof fn write_touches_nothing_else(
    regions: Seq<Seq<u8>>,
    ptr: DevicePtr,
    bytes: Seq<u8>,
    other: DevicePtr,
    len: nat,
)
    requires
        in_range(regions, ptr, bytes.len()),
        in_range(regions, other, len),
        other.region != ptr.region || other.offset + len <= ptr.offset || ptr.offset + bytes.len()
            <= other.offset,
    ensures
        in_range(written(regions, ptr, bytes), other, len),
        bytes_at(written(regions, ptr, bytes), other, len) == bytes_at(regions, other, len),
{
    assert(bytes_at(written(regions, ptr, bytes), other, len) =~= bytes_at(regions, other, len));
}

/// A copy makes the destination equal to what the source held.
pub proof fn copy_transfers_the_source(
    regions: Seq<Seq<u8>>,
    src: DevicePtr,
    dst: DevicePtr,
    len: nat,
)
    requires
        in_range(regions, src, len),
        in_range(regions, dst, len),
    ensures
        bytes_at(copied(regions, src, dst, len), dst, len) == bytes_at(regions, src, len),
{
    read_after_write(regions, dst, bytes_at(regions, src, len));
    assert(bytes_at(copied(regions, src, dst, len), dst, len) =~= bytes_at(regions, src, len));
}

/// Slot `i` of `total` slots of `size` bytes ends within the slots.
pub proof fn slot_fits(i: int, total: int, size: int)
    requires
        0 <= i < total,
        0 <= size,
    ensures
        0 <= i * size,
        i * size + size <= size * total,
{
    assert(0 <= i * size && i * size + size <= size * total) by (nonlinear_arith)
        requires
            0 <= i < total,
            0 <= size,
    ;
}

/// A range is within a region if and only if it can be walked through: its first part is, and so is
/// the rest, from where the first part ends. All of a region is within it, and nothing beyond its
/// end.
pub proof fn ranges_can_be_split(regions: Seq<Seq<u8>>, ptr: DevicePtr, a: nat, b: nat)
    requires
        a <= ptr.len,
        ptr.offset + a <= u64::MAX,
    ensures
        in_range(regions, ptr, a + b) <==> in_range(regions, ptr, a) && in_range(
            regions,
            ptr.advanced(a),
            b,
        ),
        (ptr.region as int) >= regions.len() ==> !in_range(regions, ptr, a),
        (ptr.region as int) < regions.len() && ptr.offset == 0 ==> {
            &&& in_range(regions, ptr, regions[ptr.region as int].len())
            &&& !in_range(regions, ptr, regions[ptr.region as int].len() + 1)
        },
{
}

/// Reading takes the bytes of one region in order: byte `k` of the range is the byte that stands
/// `k` bytes behind its start.
pub proof fn reads_are_byte_wise(regions: Seq<Seq<u8>>, ptr: DevicePtr, len: nat, k: int)
    requires
        in_range(regions, ptr, len),
        0 <= k < len,
    ensures
        bytes_at(regions, ptr, len).len() == len,
        bytes_at(regions, ptr, len)[k] == regions[ptr.region as int][ptr.offset + k],
{
}

/// A write changes exactly the bytes it names, each to its own: byte `i` of region `r` is the byte
/// of the data that falls on it, or what it was. Regions neither come nor go, nor change in size.
pub proof fn writes_are_byte_wise(
    regions: Seq<Seq<u8>>,
    ptr: DevicePtr,
    bytes: Seq<u8>,
    r: int,
    i: int,
)
    requires
        in_range(regions, ptr, bytes.len()),
        0 <= r < regions.len(),
        0 <= i < regions[r].len(),
    ensures
        written(regions, ptr, bytes).len() == regions.len(),
        written(regions, ptr, bytes)[r].len() == regions[r].len(),
        written(regions, ptr, bytes)[r][i] == (if r == ptr.region && ptr.offset <= i && i
            < ptr.offset + bytes.len() {
            bytes[i - ptr.offset]
        } else {
            regions[r][i]
        }),
{
}

/// A fill makes each of the bytes it names the given one, and leaves the others.
pub proof fn fills_are_uniform(
    regions: Seq<Seq<u8>>,
    ptr: DevicePtr,
    byte: u8,
    len: nat,
    r: int,
    i: int,
)
    requires
        in_range(regions, ptr, len),
        0 <= r < regions.len(),
        0 <= i < regions[r].len(),
    ensures
        repeated(byte, len).len() == len,
        written(regions, ptr, repeated(byte, len))[r][i] == (if r == ptr.region && ptr.offset <= i
            && i < ptr.offset + len {
            byte
        } else {
            regions[r][i]
        }),
{
}

/// A copy puts byte `k` of the source, as it was before, into byte `k` of the destination, also
/// where the two overlap, and leaves all else.
pub proof fn copies_are_byte_wise(
    regions: Seq<Seq<u8>>,
    src: DevicePtr,
    dst: DevicePtr,
    len: nat,
    r: int,
    i: int,
)
    requires
        in_range(regions, src, len),
        in_range(regions, dst, len),
        0 <= r < regions.len(),
        0 <= i < regions[r].len(),
    ensures
        copied(regions, src, dst, len).len() == regions.len(),
        copied(regions, src, dst, len)[r].len() == regions[r].len(),
        copied(regions, src, dst, len)[r][i] == (if r == dst.region && dst.offset <= i && i
            < dst.offset + len {
            regions[src.region as int][src.offset + (i - dst.offset)]
        } else {
            regions[r][i]
        }),
{
}

/// Copying nothing is always possible. Any other copy is possible if and only if what it reads can
/// be read and what it writes can be written.
pub proof fn copies_need_both_ends(
    regions: Seq<Seq<u8>>,
    src: DevicePtr,
    dst: DevicePtr,
    len: nat,
)
    ensures
        copy_in_range(regions, src, dst, 0),
        copied(regions, src, dst, 0) == regions,
        len > 0 ==> (copy_in_range(regions, src, dst, len) <==> in_range(regions, src, len)
            && in_range(regions, dst, len)),
{
}

/// Advancing a handle moves its start and keeps its end and its region.
pub proof fn advancing_keeps_the_end(p: DevicePtr, by: u64)
    requires
        by <= p.len,
        p.offset + by <= u64::MAX,
    ensures
        p.advanced(by as nat).region == p.region,
        p.advanced(by as nat).offset == p.offset + by,
        p.advanced(by as nat).offset + p.advanced(by as nat).len == p.offset + p.len,
{
}

} // verus!
