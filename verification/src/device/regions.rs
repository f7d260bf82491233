//! Byte regions in host memory, the storage behind the host-side backends.

use vstd::prelude::*;
use vstd::slice::*;

use crate::device::{self, DevicePtr};
use crate::error::BackendError;

verus! {

/// Regions in host memory, addressed by index.
#[derive(Debug)]
pub struct RegionStore {
    regions: Vec<Vec<u8>>,
}

impl View for RegionStore {
    type V = Seq<Seq<u8>>;

    closed spec fn view(&self) -> Seq<Seq<u8>> {
        self.regions@.map_values(|r: Vec<u8>| r@)
    }
}

/// Why an access of `len` bytes at `ptr` is refused, or `None` if it is granted.
pub open spec fn fault(regions: Seq<Seq<u8>>, ptr: DevicePtr, len: nat) -> Option<BackendError> {
    if ptr.region as int >= regions.len() {
        Some(BackendError::UnknownRegion { region: ptr.region, regions: regions.len() as usize })
    } else if ptr.offset > regions[ptr.region as int].len() {
        Some(
            BackendError::OffsetBeyondRegion {
                region: ptr.region,
                offset: ptr.offset,
                size: regions[ptr.region as int].len() as usize,
            },
        )
    } else if ptr.offset + len > regions[ptr.region as int].len() {
        Some(BackendError::OutOfRange { bytes: len as u64 })
    } else {
        None
    }
}

/// Put `bytes` in place of what stood in `region` from `offset` on.
fn overwrite(region: &mut Vec<u8>, offset: usize, bytes: &[u8])
    requires
        offset + bytes@.len() <= old(region)@.len(),
    ensures
        final(region)@ == device::overwritten(old(region)@, offset as nat, bytes@),
{
    let size: usize = region.len();
    let mut i: usize = 0;
    while i < bytes.len()
        invariant
            i <= bytes@.len(),
            region@.len() == old(region)@.len() == size,
            offset + bytes@.len() <= region@.len(),
            region@ == device::overwritten(old(region)@, offset as nat, bytes@.take(i as int)),
        decreases bytes.len() - i,
    {
        region.set(offset + i, bytes[i]);
        i += 1;
        assert(region@ =~= device::overwritten(old(region)@, offset as nat, bytes@.take(i as int)));
    }
    assert(bytes@.take(bytes@.len() as int) =~= bytes@);
}

impl RegionStore {
    /// A store without regions.
    pub fn new() -> (s: RegionStore)
        ensures
            s@ == Seq::<Seq<u8>>::empty(),
    {
        let s = RegionStore { regions: Vec::new() };
        assert(s@ =~= Seq::<Seq<u8>>::empty());
        s
    }

    /// Number of regions.
    pub fn count(&self) -> (n: usize)
        ensures
            n == self@.len(),
    {
        self.regions.len()
    }

    /// Append `contents` as a region of its own.
    pub fn push(&mut self, contents: Vec<u8>)
        ensures
            final(self)@ == old(self)@.push(contents@),
    {
        self.regions.push(contents);
        assert(self@ =~= old(self)@.push(contents@));
    }

    /// Contents of one region.
    pub fn contents(&self, region: usize) -> (c: &Vec<u8>)
        requires
            region < self@.len(),
        ensures
            c@ == self@[region as int],
    {
        &self.regions[region]
    }

    /// Resolve a handle to a region index and an offset within that region.
    pub fn locate(&self, ptr: DevicePtr) -> (r: std::result::Result<(usize, usize), BackendError>)
        ensures
            match r {
                Ok((region, offset)) => {
                    &&& region == ptr.region
                    &&& offset == ptr.offset
                    &&& device::in_range(self@, ptr, 0)
                },
                Err(e) => fault(self@, ptr, 0) == Some(e),
            },
    {
        if ptr.region as u64 >= self.regions.len() as u64 {
            return Err(
                BackendError::UnknownRegion { region: ptr.region, regions: self.regions.len() },
            );
        }
        let size: usize = self.regions[ptr.region as usize].len();
        if ptr.offset > size as u64 {
            return Err(
                BackendError::OffsetBeyondRegion { region: ptr.region, offset: ptr.offset, size },
            );
        }
        Ok((ptr.region as usize, ptr.offset as usize))
    }

    /// Resolve a handle for an access of `len` bytes.
    fn locate_range(&self, ptr: DevicePtr, len: usize) -> (r: std::result::Result<
        (usize, usize),
        BackendError,
    >)
        ensures
            match r {
                Ok((region, offset)) => {
                    &&& region == ptr.region
                    &&& offset == ptr.offset
                    &&& device::in_range(self@, ptr, len as nat)
                },
                Err(e) => fault(self@, ptr, len as nat) == Some(e),
            },
    {
        match self.locate(ptr) {
            Err(e) => Err(e),
            Ok((region, offset)) => {
                let size: usize = self.regions[region].len();
                if len > size - offset {
                    Err(BackendError::OutOfRange { bytes: len as u64 })
                } else {
                    Ok((region, offset))
                }
            },
        }
    }

    /// Read `len` bytes from `ptr` on.
    pub fn read(&self, ptr: DevicePtr, len: usize) -> (r: std::result::Result<
        Vec<u8>,
        BackendError,
    >)
        ensures
            match r {
                Ok(v) => {
                    &&& fault(self@, ptr, len as nat) is None
                    &&& v@ == device::bytes_at(self@, ptr, len as nat)
                },
                Err(e) => fault(self@, ptr, len as nat) == Some(e),
            },
    {
        match self.locate_range(ptr, len) {
            Err(e) => Err(e),
            Ok((region, offset)) => {
                proof {
                    self.sizes_fit(ptr);
                }
                let mut out: Vec<u8> = Vec::with_capacity(len);
                let part = slice_subrange(self.regions[region].as_slice(), offset, offset + len);
                out.extend_from_slice(part);
                assert(out@ =~= device::bytes_at(self@, ptr, len as nat));
                Ok(out)
            },
        }
    }

    /// Write `bytes` from `ptr` on.
    pub fn write(&mut self, ptr: DevicePtr, bytes: &[u8]) -> (r: std::result::Result<
        (),
        BackendError,
    >)
        ensures
            match r {
                Ok(_) => {
                    &&& bytes@.len() == 0 || fault(old(self)@, ptr, bytes@.len()) is None
                    &&& final(self)@ == device::written(old(self)@, ptr, bytes@)
                },
                Err(e) => {
                    &&& bytes@.len() > 0
                    &&& fault(old(self)@, ptr, bytes@.len()) == Some(e)
                    &&& final(self)@ == old(self)@
                },
            },
    {
        if bytes.len() == 0 {
            return Ok(());
        }
        match self.locate_range(ptr, bytes.len()) {
            Err(e) => Err(e),
            Ok((region, offset)) => {
                overwrite(&mut self.regions[region], offset, bytes);
                assert(self@ =~= device::written(old(self)@, ptr, bytes@));
                Ok(())
            },
        }
    }

    /// Set `len` bytes from `ptr` on to `byte`.
    pub fn fill(&mut self, ptr: DevicePtr, byte: u8, len: usize) -> (r: std::result::Result<
        (),
        BackendError,
    >)
        ensures
            match r {
                Ok(_) => {
                    &&& fault(old(self)@, ptr, len as nat) is None
                    &&& final(self)@ == device::written(
                        old(self)@,
                        ptr,
                        device::repeated(byte, len as nat),
                    )
                },
                Err(e) => {
                    &&& fault(old(self)@, ptr, len as nat) == Some(e)
                    &&& final(self)@ == old(self)@
                },
            },
    {
        match self.locate_range(ptr, len) {
            Err(e) => Err(e),
            Ok((region, offset)) => {
                let pattern: Vec<u8> = vec![byte; len];
                assert(pattern@ =~= device::repeated(byte, len as nat));
                overwrite(&mut self.regions[region], offset, pattern.as_slice());
                assert(len == 0 ==> device::overwritten(
                    old(self)@[region as int],
                    offset as nat,
                    pattern@,
                ) =~= old(self)@[region as int]);
                assert(self@ =~= device::written(old(self)@, ptr, pattern@));
                Ok(())
            },
        }
    }

    /// Copy `bytes` bytes from `src` to `dst`, through a buffer, so that the two may overlap.
    pub fn copy(&mut self, src: DevicePtr, dst: DevicePtr, bytes: u64) -> (r: std::result::Result<
        (),
        BackendError,
    >)
        ensures
            match r {
                Ok(_) => {
                    &&& device::copy_in_range(old(self)@, src, dst, bytes as nat)
                    &&& final(self)@ == device::copied(old(self)@, src, dst, bytes as nat)
                },
                Err(e) => {
                    &&& copy_fault(old(self)@, src, dst, bytes) == Some(e)
                    &&& !device::copy_in_range(old(self)@, src, dst, bytes as nat)
                    &&& final(self)@ == old(self)@
                },
            },
    {
        if bytes == 0 {
            return Ok(());
        }
        if bytes > usize::MAX as u64 {
            proof {
                self.sizes_fit(src);
            }
            return Err(BackendError::SizeOverflow { bytes });
        }
        let n: usize = bytes as usize;
        match self.locate(src) {
            Err(e) => {
                return Err(e);
            },
            Ok(_) => {},
        }
        match self.locate(dst) {
            Err(e) => {
                return Err(e);
            },
            Ok(_) => {},
        }
        let (_, offset) = match self.locate_range(dst, n) {
            Err(e) => {
                return Err(e);
            },
            Ok(place) => place,
        };
        let part = match self.read(src, n) {
            Err(e) => {
                return Err(e);
            },
            Ok(part) => part,
        };
        overwrite(&mut self.regions[dst.region as usize], offset, part.as_slice());
        assert(self@ =~= device::copied(old(self)@, src, dst, bytes as nat));
        Ok(())
    }

    /// Every region is a vector, whose length the address space bounds.
    proof fn sizes_fit(&self, ptr: DevicePtr)
        ensures
            (ptr.region as int) < self@.len() ==> self@[ptr.region as int].len() <= usize::MAX,
    {
        if (ptr.region as int) < self@.len() {
            let r = self.regions@[ptr.region as int];
            assert(r@.len() == r.len());
        }
    }
}

/// Why a copy is refused, or `None` if it is granted. The handles are resolved before the
/// lengths are compared.
pub open spec fn copy_fault(
    regions: Seq<Seq<u8>>,
    src: DevicePtr,
    dst: DevicePtr,
    bytes: u64,
) -> Option<BackendError> {
    if bytes == 0 {
        None
    } else if bytes > usize::MAX {
        Some(BackendError::SizeOverflow { bytes })
    } else if fault(regions, src, 0) is Some {
        fault(regions, src, 0)
    } else if fault(regions, dst, 0) is Some {
        fault(regions, dst, 0)
    } else if fault(regions, src, bytes as nat) is Some || fault(
        regions,
        dst,
        bytes as nat,
    ) is Some {
        Some(BackendError::OutOfRange { bytes })
    } else {
        None
    }
}

/// An access is granted if and only if it stays within a region, and the reason of a refusal names
/// what is missing: the region, the place in it, or the bytes behind that place.
pub proof fn refusals_are_justified(regions: Seq<Seq<u8>>, ptr: DevicePtr, len: nat)
    requires
        regions.len() <= usize::MAX,
        len <= u64::MAX,
        (ptr.region as int) < regions.len() ==> regions[ptr.region as int].len() <= usize::MAX,
    ensures
        fault(regions, ptr, len) is None <==> device::in_range(regions, ptr, len),
        match fault(regions, ptr, len) {
            Some(BackendError::UnknownRegion { region, regions: count }) => region == ptr.region
                && count == regions.len() && region >= regions.len(),
            Some(BackendError::OffsetBeyondRegion { region, offset, size }) => {
                &&& region == ptr.region
                &&& (region as int) < regions.len()
                &&& offset == ptr.offset
                &&& size == regions[region as int].len()
                &&& !device::in_range(regions, ptr, 0)
            },
            Some(BackendError::OutOfRange { bytes }) => bytes == len && device::in_range(
                regions,
                ptr,
                0,
            ) && !device::in_range(regions, ptr, len),
            Some(_) => false,
            None => true,
        },
{
}

/// A copy that fits the machine is granted if and only if both of its ends are within their
/// regions; a handle that leads nowhere is reported before a length that is too large, and the
/// source before the destination.
pub proof fn copy_refusals_are_justified(
    regions: Seq<Seq<u8>>,
    src: DevicePtr,
    dst: DevicePtr,
    bytes: u64,
)
    requires
        bytes <= usize::MAX,
    ensures
        copy_fault(regions, src, dst, bytes) is None <==> device::copy_in_range(
            regions,
            src,
            dst,
            bytes as nat,
        ),
        bytes > 0 && !device::in_range(regions, src, 0) ==> copy_fault(regions, src, dst, bytes)
            == fault(regions, src, 0),
        bytes > 0 && device::in_range(regions, src, 0) && !device::in_range(regions, dst, 0)
            ==> copy_fault(regions, src, dst, bytes) == fault(regions, dst, 0),
        device::in_range(regions, src, 0) && device::in_range(regions, dst, 0) ==> (copy_fault(
            regions,
            src,
            dst,
            bytes,
        ) matches Some(e) ==> e == (BackendError::OutOfRange { bytes })),
{
}

} // verus!
