//! Host-memory backend, used wherever no GPU is present.

use vstd::prelude::*;

use crate::device::regions::RegionStore;
use crate::device::{self, DeviceBackend, DevicePtr, RegionKind};
use crate::error::BackendError;

verus! {

/// Backend that keeps its regions in host memory. It grants every request within range.
#[derive(Debug)]
pub struct CpuMockBackend {
    store: RegionStore,
}

impl CpuMockBackend {
    /// Construct a backend without regions.
    pub fn new() -> (b: CpuMockBackend)
        ensures
            b.regions() == Seq::<Seq<u8>>::empty(),
            b.dependable(),
    {
        CpuMockBackend { store: RegionStore::new() }
    }
}

impl Default for CpuMockBackend {
    fn default() -> (b: CpuMockBackend)
        ensures
            b.regions() == Seq::<Seq<u8>>::empty(),
            b.dependable(),
    {
        CpuMockBackend::new()
    }
}

impl DeviceBackend for CpuMockBackend {
    closed spec fn regions(&self) -> Seq<Seq<u8>> {
        self.store@
    }

    open spec fn dependable(&self) -> bool {
        true
    }

    open spec fn clears(&self) -> bool {
        true
    }

    open spec fn label(&self) -> Seq<char> {
        "cpu_mock"@
    }

    fn alloc_region(&mut self, bytes: u64, kind: RegionKind) -> (r: std::result::Result<
        DevicePtr,
        BackendError,
    >)
        ensures
            match r {
                Ok(_) => final(self).regions() == old(self).regions().push(
                    device::repeated(0, bytes as nat),
                ),
                Err(e) => e == (if bytes > usize::MAX {
                    BackendError::SizeOverflow { bytes }
                } else {
                    BackendError::TooManyRegions
                }),
            },
    {
        if bytes > usize::MAX as u64 {
            return Err(BackendError::SizeOverflow { bytes });
        }
        let count: usize = self.store.count();
        if count as u64 > u32::MAX as u64 {
            return Err(BackendError::TooManyRegions);
        }
        let contents: Vec<u8> = vec![0u8; bytes as usize];
        assert(contents@ =~= device::repeated(0, bytes as nat));
        self.store.push(contents);
        assert(self.regions().drop_last() =~= old(self).regions());
        Ok(DevicePtr::from_region(count as u32, bytes))
    }

    fn memcpy(&mut self, src: DevicePtr, dst: DevicePtr, bytes: u64) -> (r: std::result::Result<
        (),
        BackendError,
    >)
        ensures
            r matches Err(e) ==> device::regions::copy_fault(
                old(self).regions(),
                src,
                dst,
                bytes,
            ) == Some(e),
    {
        self.store.copy(src, dst, bytes)
    }

    fn read_bytes(&self, ptr: DevicePtr, len: usize) -> (r: std::result::Result<
        Vec<u8>,
        BackendError,
    >)
        ensures
            r matches Err(e) ==> device::regions::fault(self.regions(), ptr, len as nat) == Some(
                e,
            ),
    {
        self.store.read(ptr, len)
    }

    fn fill_pattern(&mut self, ptr: DevicePtr, byte: u8, len: usize) -> (r: std::result::Result<
        (),
        BackendError,
    >)
        ensures
            r matches Err(e) ==> device::regions::fault(
                old(self).regions(),
                ptr,
                len as nat,
            ) == Some(e),
    {
        self.store.fill(ptr, byte, len)
    }

    fn write_bytes(&mut self, ptr: DevicePtr, bytes: &[u8]) -> (r: std::result::Result<
        (),
        BackendError,
    >)
        ensures
            r matches Err(e) ==> device::regions::fault(
                old(self).regions(),
                ptr,
                bytes@.len(),
            ) == Some(e),
    {
        self.store.write(ptr, bytes)
    }

    fn name(&self) -> (s: &'static str) {
        "cpu_mock"
    }
}

} // verus!
