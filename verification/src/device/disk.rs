//! The rules of the on-disk tier: which bytes of a region file are trusted, what has to be
//! written back, and which roots are allowed.
//!
//! A [`DiskBackend`] mirrors region files in host memory. When a region is opened again, its
//! file must agree with the manifest in kind, size and checksum; otherwise the region is
//! quarantined: it starts out zeroed and overwrites its file with the next flush. Whoever owns
//! the files reads them before a region is opened and writes the dirty ones back.

use vstd::prelude::*;
use vstd::string::*;

use crate::content_hash;
use crate::device::regions::{self, RegionStore};
use crate::device::{self, DevicePtr, RegionKind};
use crate::error::BackendError;
use crate::text;

verus! {

/// Strategies for keeping sliding-window state on disk.
#[derive(Debug, Clone, Copy, PartialEq, Eq, Structural)]
pub enum SwaCachingStrategy {
    /// Persist every entry.
    Full,
    /// Persist a snapshot at regular intervals.
    Periodic {
        /// Number of tokens between snapshots.
        checkpoint_interval_tokens: u32,
    },
    /// Persist nothing.
    Zero,
}

impl Default for SwaCachingStrategy {
    fn default() -> (s: SwaCachingStrategy)
        ensures
            s == (SwaCachingStrategy::Periodic { checkpoint_interval_tokens: 4096 }),
    {
        SwaCachingStrategy::Periodic { checkpoint_interval_tokens: 4096 }
    }
}

impl SwaCachingStrategy {
    /// Identifier of the strategy.
    pub open spec fn label(self) -> Seq<char> {
        match self {
            SwaCachingStrategy::Full => "full"@,
            SwaCachingStrategy::Periodic { .. } => "periodic"@,
            SwaCachingStrategy::Zero => "zero"@,
        }
    }

    /// Whether the entry at `token_pos` is persisted: always, at multiples of the interval, or
    /// never. An interval of zero has no multiples.
    pub open spec fn persists(self, token_pos: u32) -> bool {
        match self {
            SwaCachingStrategy::Full => true,
            SwaCachingStrategy::Periodic { checkpoint_interval_tokens } => checkpoint_interval_tokens
                > 0 && token_pos % checkpoint_interval_tokens == 0,
            SwaCachingStrategy::Zero => false,
        }
    }

    /// Identifier for metric labels and configuration files.
    pub fn as_str(self) -> (s: &'static str)
        ensures
            s@ == self.label(),
    {
        match self {
            SwaCachingStrategy::Full => "full",
            SwaCachingStrategy::Periodic { .. } => "periodic",
            SwaCachingStrategy::Zero => "zero",
        }
    }
}

/// What the manifest records of one region.
#[derive(Debug)]
pub struct ManifestEntry {
    /// Region index.
    pub index: u32,
    /// Name of the region kind.
    pub kind: String,
    /// Size in bytes.
    pub size: u64,
    /// Checksum of the bytes at the last flush.
    pub checksum: u64,
}

/// [`ManifestEntry`] as a mathematical value.
#[verifier::ext_equal]
pub struct EntryView {
    /// Region index.
    pub index: u32,
    /// Name of the region kind.
    pub kind: Seq<char>,
    /// Size in bytes.
    pub size: u64,
    /// Checksum of the bytes at the last flush.
    pub checksum: u64,
}

impl View for ManifestEntry {
    type V = EntryView;

    open spec fn view(&self) -> EntryView {
        EntryView {
            index: self.index,
            kind: self.kind@,
            size: self.size,
            checksum: self.checksum,
        }
    }
}

impl EntryView {
    /// Whether a region of this kind, size and checksum is the one that was recorded.
    pub open spec fn describes(self, kind: RegionKind, size: u64, checksum: u64) -> bool {
        self.kind == kind.label() && self.size == size && self.checksum == checksum
    }
}

impl ManifestEntry {
    /// Whether a region of this kind, size and checksum is the one that was recorded.
    pub fn agrees(&self, kind: RegionKind, size: u64, checksum: u64) -> (r: bool)
        ensures
            r == self@.describes(kind, size, checksum),
    {
        let name = String::from_str(kind.as_str());
        self.kind == name && self.size == size && self.checksum == checksum
    }
}

impl Clone for ManifestEntry {
    fn clone(&self) -> (c: ManifestEntry)
        ensures
            c@ == self@,
    {
        ManifestEntry {
            index: self.index,
            kind: self.kind.clone(),
            size: self.size,
            checksum: self.checksum,
        }
    }
}

/// The first entry for region `index`.
pub open spec fn entry_for(manifest: Seq<EntryView>, index: u32) -> Option<EntryView>
    decreases manifest.len(),
{
    if manifest.len() == 0 {
        None
    } else if manifest[0].index == index {
        Some(manifest[0])
    } else {
        entry_for(manifest.skip(1), index)
    }
}

/// The first `size` bytes of a file, with zeros in place of what is missing.
pub open spec fn loaded(file: Seq<u8>, size: nat) -> Seq<u8> {
    Seq::new(
        size,
        |i: int|
            if i < file.len() {
                file[i]
            } else {
                0u8
            },
    )
}

/// Whether a region is quarantined: the manifest has an entry for it that describes another
/// region.
pub open spec fn quarantines(
    prior: Option<EntryView>,
    kind: RegionKind,
    size: u64,
    checksum: u64,
) -> bool {
    prior matches Some(entry) && !entry.describes(kind, size, checksum)
}

/// Name of the file of region `index`.
pub open spec fn file_name(index: u32, kind: RegionKind) -> Seq<char> {
    "region-"@ + text::padded(index as nat, 4) + "-"@ + kind.label() + ".bin"@
}

/// Name of the file of region `index`.
pub fn region_file_name(index: u32, kind: RegionKind) -> (name: String)
    ensures
        name@ == file_name(index, kind),
{
    let mut s = String::from_str("region-");
    text::push_padded_4(&mut s, index as u64);
    s.append("-");
    s.append(kind.as_str());
    s.append(".bin");
    s
}

/// Whether the path `root` lies inside the path `prefix`: paths are lists of components.
pub open spec fn inside(root: Seq<Seq<char>>, prefix: Seq<Seq<char>>) -> bool {
    prefix.len() <= root.len() && forall|i: int| 0 <= i < prefix.len() ==> root[i] == prefix[i]
}

/// Components of a path as text.
pub open spec fn components(path: Seq<String>) -> Seq<Seq<char>> {
    path.map_values(|s: String| s@)
}

fn is_inside(root: &Vec<String>, prefix: &Vec<String>) -> (r: bool)
    ensures
        r == inside(components(root@), components(prefix@)),
{
    if prefix.len() > root.len() {
        return false;
    }
    let mut i: usize = 0;
    while i < prefix.len()
        invariant
            i <= prefix@.len() <= root@.len(),
            forall|j: int|
                0 <= j < i ==> components(root@)[j] == #[trigger] components(prefix@)[j],
        decreases prefix.len() - i,
    {
        if root[i] != prefix[i] {
            assert(components(root@)[i as int] != components(prefix@)[i as int]);
            return false;
        }
        i += 1;
    }
    true
}

/// Whether `root` lies inside one of the allowed prefixes. A prefix that could not be resolved
/// allows nothing.
pub fn root_is_allowed(root: &Vec<String>, allowed: &Vec<Option<Vec<String>>>) -> (r: bool)
    ensures
        r <==> exists|i: int|
            0 <= i < allowed@.len() && (#[trigger] allowed@[i] matches Some(prefix) && inside(
                components(root@),
                components(prefix@),
            )),
{
    let mut i: usize = 0;
    while i < allowed.len()
        invariant
            i <= allowed@.len(),
            forall|j: int|
                0 <= j < i ==> !(#[trigger] allowed@[j] matches Some(prefix) && inside(
                    components(root@),
                    components(prefix@),
                )),
        decreases allowed.len() - i,
    {
        if let Some(prefix) = &allowed[i] {
            if is_inside(root, prefix) {
                assert(allowed@[i as int] is Some);
                return true;
            }
        }
        i += 1;
    }
    false
}

/// Mirror of the region files, with what is known about them.
#[derive(Debug)]
pub struct DiskBackend {
    store: RegionStore,
    kinds: Vec<RegionKind>,
    dirty: Vec<bool>,
    manifest: Vec<ManifestEntry>,
    quarantined_count: u32,
    strategy: SwaCachingStrategy,
}

/// Mathematical state of a [`DiskBackend`].
#[verifier::ext_equal]
pub struct DiskState {
    /// Contents of the regions.
    pub regions: Seq<Seq<u8>>,
    /// Kind of each region.
    pub kinds: Seq<RegionKind>,
    /// Whether each region differs from its file.
    pub dirty: Seq<bool>,
    /// Manifest as of the last flush.
    pub manifest: Seq<EntryView>,
    /// Regions quarantined so far.
    pub quarantined: u32,
    /// Strategy for sliding-window state.
    pub strategy: SwaCachingStrategy,
}

impl View for DiskBackend {
    type V = DiskState;

    closed spec fn view(&self) -> DiskState {
        DiskState {
            regions: self.store@,
            kinds: self.kinds@,
            dirty: self.dirty@,
            manifest: self.manifest@.map_values(|e: ManifestEntry| e@),
            quarantined: self.quarantined_count,
            strategy: self.strategy,
        }
    }
}

impl DiskState {
    /// Invariant: what is known is known of every region.
    pub open spec fn inv(self) -> bool {
        self.kinds.len() == self.regions.len() && self.dirty.len() == self.regions.len()
    }

    /// State after the file of the next region was opened with the given checksum.
    pub open spec fn opened(
        self,
        size: u64,
        kind: RegionKind,
        file: Seq<u8>,
        checksum: u64,
    ) -> DiskState {
        let index = self.regions.len() as u32;
        let bad = quarantines(entry_for(self.manifest, index), kind, size, checksum);
        DiskState {
            regions: self.regions.push(
                if bad {
                    device::repeated(0, size as nat)
                } else {
                    loaded(file, size as nat)
                },
            ),
            kinds: self.kinds.push(kind),
            dirty: self.dirty.push(bad),
            quarantined: if bad && self.quarantined < u32::MAX {
                (self.quarantined + 1) as u32
            } else {
                self.quarantined
            },
            ..self
        }
    }

    /// State after the bytes of region `region` changed.
    pub open spec fn changed(self, regions: Seq<Seq<u8>>, region: u32) -> DiskState {
        DiskState { regions, dirty: self.dirty.update(region as int, true), ..self }
    }

    /// Manifest entry that a flush records for region `i`.
    pub open spec fn entry(self, i: int) -> EntryView {
        EntryView {
            index: i as u32,
            kind: self.kinds[i].label(),
            size: self.regions[i].len() as u64,
            checksum: content_hash::xxh3(self.regions[i]),
        }
    }

    /// Manifest that a flush records.
    pub open spec fn current_manifest(self) -> Seq<EntryView> {
        Seq::new(self.regions.len(), |i: int| self.entry(i))
    }
}

impl DiskBackend {
    /// Whether the mirror is in a consistent state.
    pub closed spec fn wf(self) -> bool {
        self@.inv()
    }

    /// A consistent mirror satisfies the invariant of its state.
    pub proof fn wf_implies_inv(&self)
        requires
            self.wf(),
        ensures
            self@.inv(),
    {
    }

    /// A mirror without regions, that will hold region files against `manifest`.
    pub fn new(strategy: SwaCachingStrategy, manifest: Vec<ManifestEntry>) -> (b: DiskBackend)
        ensures
            b.wf(),
            b@ == (DiskState {
                regions: Seq::empty(),
                kinds: Seq::empty(),
                dirty: Seq::empty(),
                manifest: manifest@.map_values(|e: ManifestEntry| e@),
                quarantined: 0,
                strategy,
            }),
    {
        let b = DiskBackend {
            store: RegionStore::new(),
            kinds: Vec::new(),
            dirty: Vec::new(),
            manifest,
            quarantined_count: 0,
            strategy,
        };
        assert(b@ =~= (DiskState {
            regions: Seq::empty(),
            kinds: Seq::empty(),
            dirty: Seq::empty(),
            manifest: manifest@.map_values(|e: ManifestEntry| e@),
            quarantined: 0,
            strategy,
        }));
        b
    }

    /// Configured strategy for sliding-window state.
    pub fn strategy(&self) -> (s: SwaCachingStrategy)
        ensures
            s == self@.strategy,
    {
        self.strategy
    }

    /// Number of regions quarantined so far.
    pub fn quarantined_regions(&self) -> (n: u32)
        ensures
            n == self@.quarantined,
    {
        self.quarantined_count
    }

    /// Number of regions.
    pub fn region_count(&self) -> (n: usize)
        ensures
            n == self@.regions.len(),
    {
        self.store.count()
    }

    /// Whether the sliding-window entry at `token_pos` is persisted.
    pub fn should_persist_swa(&self, token_pos: u32) -> (r: bool)
        ensures
            r == self@.strategy.persists(token_pos),
    {
        match self.strategy {
            SwaCachingStrategy::Full => true,
            SwaCachingStrategy::Periodic { checkpoint_interval_tokens } => {
                checkpoint_interval_tokens > 0 && token_pos % checkpoint_interval_tokens == 0
            },
            SwaCachingStrategy::Zero => false,
        }
    }

    /// The first manifest entry for region `index`.
    fn prior_entry(&self, index: u32) -> (r: Option<usize>)
        ensures
            match r {
                Some(i) => i < self.manifest@.len() && entry_for(self@.manifest, index) == Some(
                    self.manifest@[i as int]@,
                ),
                None => entry_for(self@.manifest, index) is None,
            },
    {
        let ghost entries = self@.manifest;
        let mut i: usize = 0;
        proof {
            assert(entries.skip(0) =~= entries);
        }
        while i < self.manifest.len()
            invariant
                i <= self.manifest@.len(),
                entries == self@.manifest,
                entry_for(entries, index) == entry_for(entries.skip(i as int), index),
            decreases self.manifest.len() - i,
        {
            assert(entries.skip(i as int)[0] == entries[i as int]);
            if self.manifest[i].index == index {
                return Some(i);
            }
            assert(entries.skip(i as int).skip(1) =~= entries.skip(i + 1));
            i += 1;
        }
        None
    }

    /// Index and file name of the next region, if there is room for one of `bytes` bytes.
    pub fn next_region(&self, bytes: u64, kind: RegionKind) -> (r: std::result::Result<
        (u32, String),
        BackendError,
    >)
        ensures
            match r {
                Ok((index, name)) => {
                    &&& bytes <= usize::MAX
                    &&& self@.regions.len() <= u32::MAX
                    &&& index == self@.regions.len()
                    &&& name@ == file_name(index, kind)
                },
                Err(e) => {
                    ||| bytes > usize::MAX && e == (BackendError::SizeOverflow { bytes })
                    ||| bytes <= usize::MAX && self@.regions.len() > u32::MAX && e
                        == BackendError::TooManyRegions
                },
            },
    {
        if bytes > usize::MAX as u64 {
            return Err(BackendError::SizeOverflow { bytes });
        }
        let count: usize = self.store.count();
        if count as u64 > u32::MAX as u64 {
            return Err(BackendError::TooManyRegions);
        }
        Ok((count as u32, region_file_name(count as u32, kind)))
    }

    /// Open the next region. `contents` holds the bytes of its file, at the size of the region,
    /// and `checksum` is theirs. If the manifest records another region under this index, the
    /// region is quarantined.
    pub fn open_checked(&mut self, contents: Vec<u8>, kind: RegionKind, checksum: u64) -> (ptr:
        DevicePtr)
        requires
            old(self).wf(),
            old(self)@.regions.len() <= u32::MAX,
        ensures
            final(self).wf(),
            ptr == (DevicePtr {
                region: old(self)@.regions.len() as u32,
                offset: 0,
                len: contents@.len() as u64,
            }),
            final(self)@ == old(self)@.opened(
                contents@.len() as u64,
                kind,
                contents@,
                checksum,
            ),
    {
        let index: u32 = self.store.count() as u32;
        let size: u64 = contents.len() as u64;
        let bad: bool = match self.prior_entry(index) {
            Some(i) => !self.manifest[i].agrees(kind, size, checksum),
            None => false,
        };
        assert(loaded(contents@, contents@.len()) =~= contents@);
        if bad {
            let zeros: Vec<u8> = vec![0u8; contents.len()];
            assert(zeros@ =~= device::repeated(0, contents@.len()));
            self.store.push(zeros);
            self.quarantined_count = self.quarantined_count.saturating_add(1);
        } else {
            self.store.push(contents);
        }
        self.kinds.push(kind);
        self.dirty.push(bad);
        assert(self@ =~= old(self)@.opened(size, kind, contents@, checksum));
        DevicePtr::from_region(index, size)
    }

    /// Open a region of `bytes` bytes whose file holds `file`. A shorter file is continued with
    /// zeros, a longer one is cut off. If the manifest records another region under this index,
    /// judged by kind, size and checksum, the region is quarantined.
    pub fn open_region(&mut self, bytes: u64, kind: RegionKind, file: &[u8]) -> (r:
        std::result::Result<DevicePtr, BackendError>)
        requires
            old(self).wf(),
        ensures
            final(self).wf(),
            match r {
                Ok(ptr) => {
                    &&& bytes <= usize::MAX
                    &&& old(self)@.regions.len() <= u32::MAX
                    &&& ptr == (DevicePtr {
                        region: old(self)@.regions.len() as u32,
                        offset: 0,
                        len: bytes,
                    })
                    &&& final(self)@ == old(self)@.opened(
                        bytes,
                        kind,
                        file@,
                        content_hash::xxh3(loaded(file@, bytes as nat)),
                    )
                },
                Err(e) => {
                    &&& final(self)@ == old(self)@
                    &&& ({
                        ||| bytes > usize::MAX && e == (BackendError::SizeOverflow { bytes })
                        ||| bytes <= usize::MAX && old(self)@.regions.len() > u32::MAX && e
                            == BackendError::TooManyRegions
                    })
                },
            },
    {
        match self.next_region(bytes, kind) {
            Ok(_) => {},
            Err(e) => {
                return Err(e);
            },
        }
        let contents = load(file, bytes as usize);
        let checksum: u64 = content_hash::xxh3_of(contents.as_slice());
        proof {
            assert(loaded(contents@, contents@.len()) =~= loaded(file@, bytes as nat));
        }
        Ok(self.open_checked(contents, kind, checksum))
    }

    /// Read `len` bytes starting at `ptr`.
    pub fn read_bytes(&self, ptr: DevicePtr, len: usize) -> (r: std::result::Result<
        Vec<u8>,
        BackendError,
    >)
        ensures
            match r {
                Ok(v) => {
                    &&& regions::fault(self@.regions, ptr, len as nat) is None
                    &&& v@ == device::bytes_at(self@.regions, ptr, len as nat)
                },
                Err(e) => regions::fault(self@.regions, ptr, len as nat) == Some(e),
            },
    {
        self.store.read(ptr, len)
    }

    /// Write `bytes` to the region starting at `ptr`. The region becomes dirty unless nothing is
    /// written.
    pub fn write_bytes(&mut self, ptr: DevicePtr, bytes: &[u8]) -> (r: std::result::Result<
        (),
        BackendError,
    >)
        requires
            old(self).wf(),
        ensures
            final(self).wf(),
            match r {
                Ok(_) => if bytes@.len() == 0 {
                    final(self)@ == old(self)@
                } else {
                    &&& regions::fault(old(self)@.regions, ptr, bytes@.len()) is None
                    &&& final(self)@ == old(self)@.changed(
                        device::written(old(self)@.regions, ptr, bytes@),
                        ptr.region,
                    )
                },
                Err(e) => {
                    &&& bytes@.len() > 0
                    &&& regions::fault(old(self)@.regions, ptr, bytes@.len()) == Some(e)
                    &&& final(self)@ == old(self)@
                },
            },
    {
        if bytes.len() == 0 {
            return Ok(());
        }
        match self.store.write(ptr, bytes) {
            Ok(_) => {
                self.dirty.set(ptr.region as usize, true);
                assert(self@ =~= old(self)@.changed(
                    device::written(old(self)@.regions, ptr, bytes@),
                    ptr.region,
                ));
                Ok(())
            },
            Err(e) => Err(e),
        }
    }

    /// Overwrite `len` bytes starting at `ptr` with `byte`. The region becomes dirty.
    pub fn fill_pattern(&mut self, ptr: DevicePtr, byte: u8, len: usize) -> (r:
        std::result::Result<(), BackendError>)
        requires
            old(self).wf(),
        ensures
            final(self).wf(),
            match r {
                Ok(_) => {
                    &&& regions::fault(old(self)@.regions, ptr, len as nat) is None
                    &&& final(self)@ == old(self)@.changed(
                        device::written(
                            old(self)@.regions,
                            ptr,
                            device::repeated(byte, len as nat),
                        ),
                        ptr.region,
                    )
                },
                Err(e) => {
                    &&& regions::fault(old(self)@.regions, ptr, len as nat) == Some(e)
                    &&& final(self)@ == old(self)@
                },
            },
    {
        match self.store.fill(ptr, byte, len) {
            Ok(_) => {
                self.dirty.set(ptr.region as usize, true);
                assert(self@ =~= old(self)@.changed(
                    device::written(old(self)@.regions, ptr, device::repeated(byte, len as nat)),
                    ptr.region,
                ));
                Ok(())
            },
            Err(e) => Err(e),
        }
    }

    /// Copy `bytes` from `src` to `dst`. The destination becomes dirty unless nothing is copied.
    pub fn memcpy(&mut self, src: DevicePtr, dst: DevicePtr, bytes: u64) -> (r:
        std::result::Result<(), BackendError>)
        requires
            old(self).wf(),
        ensures
            final(self).wf(),
            match r {
                Ok(_) => if bytes == 0 {
                    final(self)@ == old(self)@
                } else {
                    &&& device::copy_in_range(old(self)@.regions, src, dst, bytes as nat)
                    &&& final(self)@ == old(self)@.changed(
                        device::copied(old(self)@.regions, src, dst, bytes as nat),
                        dst.region,
                    )
                },
                Err(e) => {
                    &&& regions::copy_fault(old(self)@.regions, src, dst, bytes) == Some(e)
                    &&& final(self)@ == old(self)@
                },
            },
    {
        if bytes == 0 {
            return Ok(());
        }
        match self.store.copy(src, dst, bytes) {
            Ok(_) => {
                self.dirty.set(dst.region as usize, true);
                assert(self@ =~= old(self)@.changed(
                    device::copied(old(self)@.regions, src, dst, bytes as nat),
                    dst.region,
                ));
                Ok(())
            },
            Err(e) => Err(e),
        }
    }

    /// Whether region `index` has to be written back.
    pub fn is_dirty(&self, index: usize) -> (r: bool)
        requires
            self.wf(),
            index < self@.regions.len(),
        ensures
            r == self@.dirty[index as int],
    {
        self.dirty[index]
    }

    /// Name of the file of region `index`.
    pub fn file_of(&self, index: usize) -> (name: String)
        requires
            self.wf(),
            index < self@.regions.len(),
            index <= u32::MAX,
        ensures
            name@ == file_name(index as u32, self@.kinds[index as int]),
    {
        region_file_name(index as u32, self.kinds[index])
    }

    /// Bytes of region `index`.
    pub fn region_bytes(&self, index: usize) -> (bytes: &Vec<u8>)
        requires
            index < self@.regions.len(),
        ensures
            bytes@ == self@.regions[index as int],
    {
        self.store.contents(index)
    }

    /// Record that region `index` was written back.
    pub fn mark_clean(&mut self, index: usize)
        requires
            old(self).wf(),
            index < old(self)@.regions.len(),
        ensures
            final(self).wf(),
            final(self)@ == (DiskState {
                dirty: old(self)@.dirty.update(index as int, false),
                ..old(self)@
            }),
    {
        self.dirty.set(index, false);
        assert(self@ =~= (DiskState {
            dirty: old(self)@.dirty.update(index as int, false),
            ..old(self)@
        }));
    }

    /// Compute the manifest of the regions as they are, keep it, and return a copy.
    pub fn refresh_manifest(&mut self) -> (r: std::result::Result<
        Vec<ManifestEntry>,
        BackendError,
    >)
        requires
            old(self).wf(),
        ensures
            final(self).wf(),
            match r {
                Ok(entries) => {
                    &&& old(self)@.regions.len() <= 0x1_0000_0000
                    &&& entries@.map_values(|e: ManifestEntry| e@) == old(self)@.current_manifest()
                    &&& final(self)@ == (DiskState {
                        manifest: old(self)@.current_manifest(),
                        ..old(self)@
                    })
                },
                Err(e) => {
                    &&& old(self)@.regions.len() > 0x1_0000_0000
                    &&& e == BackendError::TooManyRegions
                    &&& final(self)@ == old(self)@
                },
            },
    {
        let ghost s = self@;
        let ghost want = s.current_manifest();
        if self.store.count() as u64 > 0x1_0000_0000u64 {
            return Err(BackendError::TooManyRegions);
        }
        let mut entries: Vec<ManifestEntry> = Vec::new();
        let mut kept: Vec<ManifestEntry> = Vec::new();
        let mut i: usize = 0;
        while i < self.store.count()
            invariant
                i <= s.regions.len() <= 0x1_0000_0000,
                s == self@,
                self.wf(),
                want == s.current_manifest(),
                entries@.len() == i,
                kept@.len() == i,
                forall|j: int| 0 <= j < i ==> (#[trigger] entries@[j])@ == want[j],
                forall|j: int| 0 <= j < i ==> (#[trigger] kept@[j])@ == want[j],
            decreases s.regions.len() - i,
        {
            let bytes = self.store.contents(i);
            let entry = ManifestEntry {
                index: i as u32,
                kind: String::from_str(self.kinds[i].as_str()),
                size: bytes.len() as u64,
                checksum: content_hash::xxh3_of(bytes.as_slice()),
            };
            assert(entry@ =~= want[i as int]);
            kept.push(entry.clone());
            entries.push(entry);
            i += 1;
        }
        self.manifest = kept;
        proof {
            assert(entries@.map_values(|e: ManifestEntry| e@) =~= want);
            assert(self@.manifest =~= want);
            assert(self@ =~= (DiskState { manifest: want, ..s }));
        }
        Ok(entries)
    }
}

/// The first `size` bytes of a file, with zeros in place of what is missing.
fn load(file: &[u8], size: usize) -> (contents: Vec<u8>)
    ensures
        contents@ == loaded(file@, size as nat),
{
    let mut contents: Vec<u8> = Vec::with_capacity(size);
    let mut i: usize = 0;
    while i < size
        invariant
            i <= size,
            contents@ == loaded(file@, i as nat),
        decreases size - i,
    {
        let b: u8 = if i < file.len() {
            file[i]
        } else {
            0
        };
        contents.push(b);
        i += 1;
        assert(contents@ =~= loaded(file@, i as nat));
    }
    contents
}

/// The manifest of a flush has one entry per region, found under the region's index.
proof fn flushed_entry(s: DiskState, i: int, from: int)
    requires
        s.inv(),
        s.regions.len() <= 0x1_0000_0000,
        0 <= from <= i < s.regions.len(),
    ensures
        entry_for(s.current_manifest().skip(from), i as u32) == Some(s.entry(i)),
    decreases i - from,
{
    let rest = s.current_manifest().skip(from);
    assert(rest[0] == s.entry(from));
    if from < i {
        assert(rest.skip(1) =~= s.current_manifest().skip(from + 1));
        flushed_entry(s, i, from + 1);
    }
}

/// What a flush wrote is what the next start reads. If region `i` was flushed, and it is opened
/// under its index again with the kind and the size it had and a file that holds its bytes, then
/// it is not quarantined and holds these bytes.
pub proof fn reopening_recovers(before: DiskState, after: DiskState, i: int)
    requires
        before.inv(),
        after.inv(),
        before.regions.len() <= 0x1_0000_0000,
        0 <= i < before.regions.len(),
        before.regions[i].len() <= u64::MAX,
        after.manifest == before.current_manifest(),
        after.regions.len() == i,
    ensures
        ({
            let size = before.regions[i].len() as u64;
            let file = before.regions[i];
            let t = after.opened(
                size,
                before.kinds[i],
                file,
                content_hash::xxh3(loaded(file, size as nat)),
            );
            &&& t.regions[i] == file
            &&& t.quarantined == after.quarantined
            &&& !t.dirty[i]
        }),
{
    let file = before.regions[i];
    let size = file.len() as u64;
    assert(loaded(file, size as nat) =~= file);
    flushed_entry(before, i, 0);
    assert(before.current_manifest().skip(0) =~= before.current_manifest());
}

/// A region whose file was changed behind the manifest's back, so that its checksum differs, or
/// that is opened with another kind or size, is quarantined: it holds zeros, is counted, and
/// overwrites its file with the next flush.
pub proof fn reopening_quarantines(
    before: DiskState,
    after: DiskState,
    i: int,
    size: u64,
    kind: RegionKind,
    file: Seq<u8>,
)
    requires
        before.inv(),
        after.inv(),
        before.regions.len() <= 0x1_0000_0000,
        0 <= i < before.regions.len(),
        before.regions[i].len() <= u64::MAX,
        after.manifest == before.current_manifest(),
        after.regions.len() == i,
        after.quarantined < u32::MAX,
        kind.label() != before.kinds[i].label() || size != before.regions[i].len()
            || content_hash::xxh3(loaded(file, size as nat)) != content_hash::xxh3(
            before.regions[i],
        ),
    ensures
        ({
            let t = after.opened(
                size,
                kind,
                file,
                content_hash::xxh3(loaded(file, size as nat)),
            );
            &&& t.regions[i] == device::repeated(0, size as nat)
            &&& t.quarantined == after.quarantined + 1
            &&& t.dirty[i]
        }),
{
    flushed_entry(before, i, 0);
    assert(before.current_manifest().skip(0) =~= before.current_manifest());
}

/// The names of region kinds differ.
pub proof fn kind_labels_differ(a: RegionKind, b: RegionKind)
    requires
        a.label() == b.label(),
    ensures
        a == b,
{
    reveal_strlit("primary");
    reveal_strlit("rope");
    reveal_strlit("fp8_scales");
    assert("primary"@.len() == 7);
    assert("rope"@.len() == 4);
    assert("fp8_scales"@.len() == 10);
}

/// With an interval of `n` tokens the snapshots fall on the multiples of `n`.
pub proof fn snapshots_fall_on_multiples(n: u32, token_pos: u32)
    requires
        n > 0,
    ensures
        (SwaCachingStrategy::Periodic { checkpoint_interval_tokens: n }).persists(token_pos)
            <==> exists|k: nat| token_pos == #[trigger] (k * n),
{
    let p = token_pos as nat;
    let m = n as nat;
    assert(p == (p / m) * m + p % m) by (nonlinear_arith)
        requires
            m > 0,
    ;
    if p % m == 0 {
        let k = p / m;
        assert(token_pos == k * n);
    }
    if exists|k: nat| token_pos == #[trigger] (k * n) {
        let k = choose|k: nat| token_pos == #[trigger] (k * n);
        assert((k * m) % m == 0) by (nonlinear_arith)
            requires
                m > 0,
        ;
        assert(k * n == k * m);
    }
}

/// Between two snapshots lie exactly `n - 1` tokens without one.
pub proof fn snapshots_are_one_interval_apart(n: u32, token_pos: u32, next: u32)
    requires
        n > 0,
        token_pos <= next <= token_pos + n,
        (SwaCachingStrategy::Periodic { checkpoint_interval_tokens: n }).persists(token_pos),
    ensures
        (SwaCachingStrategy::Periodic { checkpoint_interval_tokens: n }).persists(next) <==> next
            == token_pos || next == token_pos + n,
{
    let s = SwaCachingStrategy::Periodic { checkpoint_interval_tokens: n };
    let m = n as nat;
    snapshots_fall_on_multiples(n, token_pos);
    snapshots_fall_on_multiples(n, next);
    let k = choose|k: nat| token_pos == #[trigger] (k * n);
    if next == token_pos + n {
        assert((k + 1) * m == k * m + m) by (nonlinear_arith);
        assert(next == (k + 1) * n);
    }
    if s.persists(next) && next != token_pos {
        let l = choose|l: nat| next == #[trigger] (l * n);
        assert(l >= k + 1) by (nonlinear_arith)
            requires
                l * m > k * m,
                m > 0,
        ;
        assert(l * m >= (k + 1) * m) by (nonlinear_arith)
            requires
                l >= k + 1,
        ;
        assert((k + 1) * m == k * m + m) by (nonlinear_arith);
    }
}

/// Whatever the token, the full strategy persists and the zero strategy does not; an interval of
/// zero persists nothing, and every other interval starts with a snapshot.
pub proof fn strategies_at_their_limits(token_pos: u32, n: u32)
    ensures
        SwaCachingStrategy::Full.persists(token_pos),
        !SwaCachingStrategy::Zero.persists(token_pos),
        !(SwaCachingStrategy::Periodic { checkpoint_interval_tokens: 0 }).persists(token_pos),
        (SwaCachingStrategy::Periodic { checkpoint_interval_tokens: 1 }).persists(token_pos),
        n > 0 ==> (SwaCachingStrategy::Periodic { checkpoint_interval_tokens: n }).persists(0),
{
}

/// The entry of a region is the first one under its index.
pub proof fn first_entry_counts(manifest: Seq<EntryView>, index: u32)
    ensures
        match entry_for(manifest, index) {
            Some(e) => exists|i: int|
                0 <= i < manifest.len() && #[trigger] manifest[i] == e && e.index == index
                    && forall|j: int| 0 <= j < i ==> (#[trigger] manifest[j]).index != index,
            None => forall|j: int|
                0 <= j < manifest.len() ==> (#[trigger] manifest[j]).index != index,
        },
    decreases manifest.len(),
{
    if manifest.len() > 0 {
        if manifest[0].index != index {
            let rest = manifest.skip(1);
            first_entry_counts(rest, index);
            match entry_for(rest, index) {
                Some(e) => {
                    let i = choose|i: int|
                        0 <= i < rest.len() && #[trigger] rest[i] == e && e.index == index
                            && forall|j: int| 0 <= j < i ==> (#[trigger] rest[j]).index != index;
                    assert(manifest[i + 1] == e);
                    assert forall|j: int| 0 <= j < i + 1 implies (#[trigger] manifest[j]).index
                        != index by {
                        if j > 0 {
                            assert(rest[j - 1] == manifest[j]);
                        }
                    }
                },
                None => {
                    assert forall|j: int| 0 <= j < manifest.len() implies (
                    #[trigger] manifest[j]).index != index by {
                        if j > 0 {
                            assert(rest[j - 1] == manifest[j]);
                        }
                    }
                },
            }
        }
    }
}

/// Opening adds one region of the given size and kind, and leaves the others as they were. The new
/// region holds the bytes of its file, or zeros alone if it is quarantined; either way what the
/// file does not have is zero. A region is dirty from the start, and counted, if and only if it is
/// quarantined.
pub proof fn opening_adds_one_region(
    s: DiskState,
    size: u64,
    kind: RegionKind,
    file: Seq<u8>,
    checksum: u64,
    b: int,
)
    requires
        s.inv(),
        s.regions.len() <= u32::MAX,
        0 <= b < size,
    ensures
        ({
            let t = s.opened(size, kind, file, checksum);
            let n = s.regions.len() as int;
            &&& t.inv()
            &&& t.regions.len() == n + 1
            &&& t.regions.drop_last() == s.regions
            &&& t.kinds == s.kinds.push(kind)
            &&& t.dirty.drop_last() == s.dirty
            &&& t.manifest == s.manifest
            &&& t.strategy == s.strategy
            &&& t.regions[n].len() == size
            &&& t.dirty[n] && s.quarantined < u32::MAX ==> t.quarantined == s.quarantined + 1
            &&& !t.dirty[n] || s.quarantined == u32::MAX ==> t.quarantined == s.quarantined
            &&& t.dirty[n] ==> t.regions[n][b] == 0
            &&& b >= file.len() ==> t.regions[n][b] == 0
            &&& !t.dirty[n] && b < file.len() ==> t.regions[n][b] == file[b]
        }),
{
    let t = s.opened(size, kind, file, checksum);
    assert(t.regions.drop_last() =~= s.regions);
    assert(t.dirty.drop_last() =~= s.dirty);
}

/// A region that no entry of the manifest speaks of is not quarantined. One with an entry is
/// quarantined if and only if the first of its entries disagrees in kind, size or checksum.
pub proof fn quarantine_follows_the_manifest(
    s: DiskState,
    size: u64,
    kind: RegionKind,
    file: Seq<u8>,
    checksum: u64,
    i: int,
)
    requires
        s.inv(),
        s.regions.len() <= u32::MAX,
    ensures
        ({
            let t = s.opened(size, kind, file, checksum);
            let n = s.regions.len() as int;
            &&& (forall|j: int| 0 <= j < s.manifest.len() ==> (#[trigger] s.manifest[j]).index != n)
                ==> !t.dirty[n]
            &&& 0 <= i < s.manifest.len() && s.manifest[i].index == n && (forall|j: int|
                0 <= j < i ==> (#[trigger] s.manifest[j]).index != n) ==> (t.dirty[n] <==> {
                ||| s.manifest[i].kind != kind.label()
                ||| s.manifest[i].size != size
                ||| s.manifest[i].checksum != checksum
            })
        }),
{
    first_entry_counts(s.manifest, s.regions.len() as u32);
}

/// A change marks the region that it happened in, and no other; writing back clears that mark
/// alone.
pub proof fn changes_mark_one_region(s: DiskState, regions: Seq<Seq<u8>>, region: u32, other: int)
    requires
        s.inv(),
        regions.len() == s.regions.len(),
        region < s.regions.len(),
        0 <= other < s.regions.len(),
    ensures
        s.changed(regions, region).inv(),
        s.changed(regions, region).regions == regions,
        s.changed(regions, region).dirty[other] == (s.dirty[other] || other == region),
        s.changed(regions, region).kinds == s.kinds,
        s.changed(regions, region).manifest == s.manifest,
        s.changed(regions, region).quarantined == s.quarantined,
{
}

/// A path lies inside a prefix if and only if it is the prefix continued. Every path lies inside
/// itself and inside the root, and what lies inside a part lies inside the whole.
pub proof fn paths_inside_continue_the_prefix(
    root: Seq<Seq<char>>,
    prefix: Seq<Seq<char>>,
    outer: Seq<Seq<char>>,
)
    ensures
        inside(root, prefix) <==> exists|rest: Seq<Seq<char>>| root == #[trigger] (prefix + rest),
        inside(root, root),
        inside(root, Seq::empty()),
        inside(root, prefix) && inside(prefix, outer) ==> inside(root, outer),
        inside(root, prefix) && inside(prefix, root) ==> root == prefix,
{
    if inside(root, prefix) {
        assert(root =~= prefix + root.skip(prefix.len() as int));
        if inside(prefix, root) {
            assert(root =~= prefix);
        }
    }
    if exists|rest: Seq<Seq<char>>| root == #[trigger] (prefix + rest) {
        let rest = choose|rest: Seq<Seq<char>>| root == #[trigger] (prefix + rest);
        assert(forall|i: int| 0 <= i < prefix.len() ==> root[i] == prefix[i]);
    }
}

/// A flush records the regions in order: each under its index, with its own kind, size and the
/// checksum of its bytes.
pub proof fn flush_records_every_region(s: DiskState, i: int)
    requires
        s.inv(),
        s.regions.len() <= 0x1_0000_0000,
        0 <= i < s.regions.len(),
        s.regions[i].len() <= u64::MAX,
    ensures
        s.current_manifest().len() == s.regions.len(),
        s.current_manifest()[i].index == i,
        s.current_manifest()[i].kind == s.kinds[i].label(),
        s.current_manifest()[i].size == s.regions[i].len(),
        s.current_manifest()[i].checksum == content_hash::xxh3(s.regions[i]),
{
}

/// The identifiers of the strategies differ.
pub proof fn strategy_labels_differ(a: SwaCachingStrategy, b: SwaCachingStrategy)
    ensures
        a.label() == b.label() <==> (a is Full <==> b is Full) && (a is Zero <==> b is Zero),
{
    reveal_strlit("full");
    reveal_strlit("periodic");
    reveal_strlit("zero");
    assert("full"@.len() == 4);
    assert("periodic"@.len() == 8);
    assert("zero"@.len() == 4);
    assert("full"@[0] != "zero"@[0]);
}

/// Regions have files of their own: two names are equal only for the same index and kind.
pub proof fn file_names_are_unique(i: u32, a: RegionKind, j: u32, b: RegionKind)
    requires
        file_name(i, a) == file_name(j, b),
    ensures
        i == j,
        a == b,
{
    reveal_strlit("region-");
    reveal_strlit("-");
    reveal_strlit(".bin");
    reveal_strlit("primary");
    reveal_strlit("rope");
    reveal_strlit("fp8_scales");
    let p = text::padded(i as nat, 4);
    let q = text::padded(j as nat, 4);
    let f = file_name(i, a);
    let g = file_name(j, b);
    text::padding_keeps_the_number(i as nat, 4);
    text::padding_keeps_the_number(j as nat, 4);
    assert(f[p.len() + 7int] == '-');
    assert(g[q.len() + 7int] == '-');
    assert(forall|k: int| 0 <= k < p.len() ==> f[7 + k] == #[trigger] p[k]);
    assert(forall|k: int| 0 <= k < q.len() ==> g[7 + k] == #[trigger] q[k]);
    if p.len() < q.len() {
        assert(g[p.len() + 7int] == q[p.len() as int]);
    }
    if q.len() < p.len() {
        assert(f[q.len() + 7int] == p[q.len() as int]);
    }
    assert(p =~= q) by {
        assert forall|k: int| 0 <= k < p.len() implies p[k] == q[k] by {
            assert(f[7 + k] == p[k]);
            assert(g[7 + k] == q[k]);
        }
    }
    assert(f.len() == 7 + p.len() + 1 + a.label().len() + 4);
    assert(g.len() == 7 + q.len() + 1 + b.label().len() + 4);
}

} // verus!
