//! Device backends: host memory and the on-disk mirror.

use tessera::device::disk::{region_file_name, root_is_allowed, ManifestEntry};
use tessera::device::RegionKind;
use tessera::{
    BackendError, CpuMockBackend, DeviceBackend, DevicePtr, DiskBackend, SwaCachingStrategy,
};

// ---- host memory

#[test]
fn alloc_and_fill_roundtrip() {
    let mut be = CpuMockBackend::new();
    let p = be.alloc_region(1024, RegionKind::Primary).unwrap();
    be.fill_pattern(p, 0xAB, 1024).unwrap();
    let bytes = be.read_bytes(p, 1024).unwrap();
    assert!(bytes.iter().all(|&b| b == 0xAB));
}

#[test]
fn memcpy_cross_region_isolates_src() {
    let mut be = CpuMockBackend::new();
    let src = be.alloc_region(256, RegionKind::Primary).unwrap();
    let dst = be.alloc_region(256, RegionKind::Primary).unwrap();
    be.fill_pattern(src, 0x11, 256).unwrap();
    be.memcpy(src, dst, 256).unwrap();
    be.fill_pattern(src, 0x22, 256).unwrap();
    assert!(be.read_bytes(dst, 256).unwrap().iter().all(|&b| b == 0x11));
}

#[test]
fn pointer_to_nonexistent_region_is_rejected() {
    let mut be = CpuMockBackend::new();
    let bad = DevicePtr::from_region(99, 64);
    assert!(be.read_bytes(bad, 64).is_err());
    assert!(be.write_bytes(bad, &[0u8; 64]).is_err());
    assert!(be.fill_pattern(bad, 0x00, 64).is_err());
}

#[test]
fn read_past_region_end_is_rejected() {
    let mut be = CpuMockBackend::new();
    let p = be.alloc_region(128, RegionKind::Primary).unwrap();
    assert!(be.read_bytes(p, 256).is_err());
}

#[test]
fn a_fresh_region_is_zeroed_and_addressed_whole() {
    let mut be = CpuMockBackend::default();
    let a = be.alloc_region(8, RegionKind::Primary).unwrap();
    let b = be.alloc_region(16, RegionKind::Rope).unwrap();
    assert_eq!(a, DevicePtr::from_region(0, 8));
    assert_eq!(b, DevicePtr::from_region(1, 16));
    assert_eq!(be.read_bytes(b, 16).unwrap(), vec![0; 16]);
    assert_eq!(be.name(), "cpu_mock");
    assert_eq!(be.device_address(a), None);
}

#[test]
fn writes_change_the_bytes_they_name() {
    let mut be = CpuMockBackend::new();
    let p = be.alloc_region(8, RegionKind::Primary).unwrap();
    be.write_bytes(p.offset(3), &[1, 2, 3]).unwrap();
    assert_eq!(be.read_bytes(p, 8).unwrap(), vec![0, 0, 0, 1, 2, 3, 0, 0]);
    assert_eq!(be.read_bytes(p.offset(1).offset(2), 3).unwrap(), vec![1, 2, 3]);
    be.memcpy(p.offset(3), p.offset(4), 3).unwrap();
    assert_eq!(be.read_bytes(p, 8).unwrap(), vec![0, 0, 0, 1, 1, 2, 3, 0]);
    be.write_bytes(DevicePtr::from_region(7, 0), &[]).unwrap();
    be.memcpy(p, DevicePtr::from_region(7, 0), 0).unwrap();
}

#[test]
fn refused_requests_say_why() {
    let mut be = CpuMockBackend::new();
    let p = be.alloc_region(8, RegionKind::Primary).unwrap();
    let unknown = DevicePtr::from_region(3, 8);
    assert_eq!(
        be.read_bytes(unknown, 1).unwrap_err().to_string(),
        "DevicePtr targets region 3 but only 1 regions exist"
    );
    let beyond = DevicePtr {
        region: 0,
        offset: 9,
        len: 1,
    };
    assert_eq!(
        be.read_bytes(beyond, 1).unwrap_err().to_string(),
        "offset 9 beyond region size 8 (region 0)"
    );
    assert!(matches!(
        be.read_bytes(p.offset(4), 5),
        Err(BackendError::OutOfRange { .. })
    ));
    assert!(be.memcpy(p, p.offset(4), 5).is_err());
    assert_eq!(be.read_bytes(p, 8).unwrap(), vec![0; 8]);
    assert_eq!(
        BackendError::TooManyRegions.to_string(),
        "region count exceeds u32::MAX"
    );
    assert_eq!(
        BackendError::SizeOverflow { bytes: 12 }.to_string(),
        "size 12 doesn't fit in usize"
    );
}

#[test]
fn handles_shrink_as_they_advance() {
    let p = DevicePtr::from_region(2, 10).offset(4);
    assert_eq!((p.region(), p.region_offset(), p.len()), (2, 4, 6));
    assert!(!p.is_empty());
    assert!(p.offset(6).is_empty());
    assert_eq!(p.offset(1).offset(2), p.offset(3));
}

#[test]
fn region_kinds_have_names() {
    assert_eq!(RegionKind::Primary.as_str(), "primary");
    assert_eq!(RegionKind::Rope.as_str(), "rope");
    assert_eq!(RegionKind::Fp8Scales.as_str(), "fp8_scales");
}

// ---- the on-disk mirror

/// The files of a directory, in memory.
struct Files {
    manifest: Vec<ManifestEntry>,
    regions: Vec<(String, Vec<u8>)>,
}

impl Files {
    fn new() -> Files {
        Files {
            manifest: Vec::new(),
            regions: Vec::new(),
        }
    }

    fn start(&self, strategy: SwaCachingStrategy) -> DiskBackend {
        DiskBackend::new(strategy, self.manifest.clone())
    }

    fn open(&self, be: &mut DiskBackend, bytes: u64, kind: RegionKind) -> DevicePtr {
        let (_, name) = be.next_region(bytes, kind).unwrap();
        let file = self
            .regions
            .iter()
            .find(|(n, _)| *n == name)
            .map(|(_, b)| b.clone())
            .unwrap_or_default();
        be.open_region(bytes, kind, &file).unwrap()
    }

    fn flush(&mut self, be: &mut DiskBackend) {
        for i in 0..be.region_count() {
            if be.is_dirty(i) {
                let name = be.file_of(i);
                self.regions.retain(|(n, _)| *n != name);
                self.regions.push((name, be.region_bytes(i).clone()));
                be.mark_clean(i);
            }
        }
        self.manifest = be.refresh_manifest().unwrap();
    }
}

fn open(be: &mut DiskBackend, bytes: u64, kind: RegionKind) -> DevicePtr {
    be.open_region(bytes, kind, &[]).unwrap()
}

#[test]
fn alloc_write_read_roundtrip() {
    let mut be = Files::new().start(SwaCachingStrategy::Full);
    let p = open(&mut be, 1024, RegionKind::Primary);
    be.write_bytes(p, &[0xAB; 1024]).unwrap();
    let out = be.read_bytes(p, 1024).unwrap();
    assert!(out.iter().all(|&b| b == 0xAB));
}

#[test]
fn persistence_across_backend_reopens_with_matching_manifest() {
    let mut files = Files::new();
    let payload = vec![0x42u8; 512];

    {
        let mut be = files.start(SwaCachingStrategy::Full);
        let p = files.open(&mut be, 512, RegionKind::Primary);
        be.write_bytes(p, &payload).unwrap();
        files.flush(&mut be);
    }

    let mut be2 = files.start(SwaCachingStrategy::Full);
    let p2 = files.open(&mut be2, 512, RegionKind::Primary);
    assert_eq!(be2.quarantined_regions(), 0);
    let out = be2.read_bytes(p2, 512).unwrap();
    assert_eq!(out, payload);
}

#[test]
fn manifest_mismatch_quarantines_region() {
    let mut files = Files::new();

    {
        let mut be = files.start(SwaCachingStrategy::Full);
        let p = files.open(&mut be, 256, RegionKind::Primary);
        be.write_bytes(p, &[0xCC; 256]).unwrap();
        files.flush(&mut be);
    }

    // Tamper with the region file out-of-band.
    assert_eq!(files.regions[0].0, "region-0000-primary.bin");
    files.regions[0].1 = vec![0xEE; 256];

    let mut be2 = files.start(SwaCachingStrategy::Full);
    let p2 = files.open(&mut be2, 256, RegionKind::Primary);
    assert_eq!(
        be2.quarantined_regions(),
        1,
        "tampered region must quarantine"
    );
    // Quarantined region is zeroed in memory.
    let out = be2.read_bytes(p2, 256).unwrap();
    assert!(out.iter().all(|&b| b == 0));
    // It overwrites its file with the next flush.
    assert!(be2.is_dirty(0));
    files.flush(&mut be2);
    assert_eq!(files.regions[0].1, vec![0; 256]);
}

#[test]
fn kind_mismatch_quarantines_region() {
    let mut files = Files::new();

    {
        let mut be = files.start(SwaCachingStrategy::Full);
        let p = files.open(&mut be, 128, RegionKind::Primary);
        be.write_bytes(p, &[0xAA; 128]).unwrap();
        files.flush(&mut be);
    }

    let mut be2 = files.start(SwaCachingStrategy::Full);
    let _ = files.open(&mut be2, 128, RegionKind::Rope);
    assert_eq!(be2.quarantined_regions(), 1);
}

#[test]
fn size_mismatch_quarantines_region() {
    let mut files = Files::new();
    let mut be = files.start(SwaCachingStrategy::Full);
    let p = files.open(&mut be, 128, RegionKind::Primary);
    be.write_bytes(p, &[0xAA; 128]).unwrap();
    files.flush(&mut be);

    let mut be2 = files.start(SwaCachingStrategy::Full);
    let q = files.open(&mut be2, 64, RegionKind::Primary);
    assert_eq!(be2.quarantined_regions(), 1);
    assert_eq!(be2.read_bytes(q, 64).unwrap(), vec![0; 64]);
}

#[test]
fn should_persist_swa_honours_strategy() {
    let full = Files::new().start(SwaCachingStrategy::Full);
    assert!(full.should_persist_swa(0));
    assert!(full.should_persist_swa(1));
    assert!(full.should_persist_swa(99999));

    let zero = Files::new().start(SwaCachingStrategy::Zero);
    assert!(!zero.should_persist_swa(0));
    assert!(!zero.should_persist_swa(1));

    let periodic = Files::new().start(SwaCachingStrategy::Periodic {
        checkpoint_interval_tokens: 4096,
    });
    assert!(periodic.should_persist_swa(0));
    assert!(periodic.should_persist_swa(4096));
    assert!(periodic.should_persist_swa(8192));
    assert!(!periodic.should_persist_swa(1));
    assert!(!periodic.should_persist_swa(4095));
}

#[test]
fn an_interval_of_zero_persists_nothing() {
    let never = Files::new().start(SwaCachingStrategy::Periodic {
        checkpoint_interval_tokens: 0,
    });
    assert!(!never.should_persist_swa(0));
    assert_eq!(
        SwaCachingStrategy::default(),
        SwaCachingStrategy::Periodic {
            checkpoint_interval_tokens: 4096
        }
    );
    assert_eq!(
        Files::new().start(SwaCachingStrategy::Zero).strategy(),
        SwaCachingStrategy::Zero
    );
}

#[test]
fn strategy_as_str_is_stable() {
    assert_eq!(SwaCachingStrategy::Full.as_str(), "full");
    assert_eq!(SwaCachingStrategy::Zero.as_str(), "zero");
    assert_eq!(
        SwaCachingStrategy::Periodic {
            checkpoint_interval_tokens: 1
        }
        .as_str(),
        "periodic"
    );
}

#[test]
fn memcpy_cross_region_copies_bytes() {
    let mut be = Files::new().start(SwaCachingStrategy::Full);
    let a = open(&mut be, 256, RegionKind::Primary);
    let b = open(&mut be, 256, RegionKind::Primary);
    be.fill_pattern(a, 0x55, 256).unwrap();
    be.memcpy(a, b, 256).unwrap();
    be.fill_pattern(a, 0x00, 256).unwrap();
    let bytes_b = be.read_bytes(b, 256).unwrap();
    assert!(bytes_b.iter().all(|&v| v == 0x55));
}

fn path(s: &str) -> Vec<String> {
    s.split('/').map(|c| c.to_string()).collect()
}

#[test]
fn allowed_roots_accepts_inside_prefix() {
    let root = path("/tmp/a/tenant-a");
    assert!(root_is_allowed(&root, &vec![Some(path("/tmp/a"))]));
    assert!(root_is_allowed(&root, &vec![Some(root.clone())]));
}

#[test]
fn allowed_roots_rejects_outside_prefix() {
    let allowed = vec![Some(path("/tmp/a"))];
    assert!(
        !root_is_allowed(&path("/tmp/b"), &allowed),
        "path outside allowlist must be rejected"
    );
    // A prefix is one of components, not of characters.
    assert!(!root_is_allowed(&path("/tmp/ab"), &allowed));
    assert!(!root_is_allowed(&path("/tmp"), &allowed));
    assert!(!root_is_allowed(&path("/tmp/a"), &vec![None]));
    assert!(!root_is_allowed(&path("/tmp/a"), &vec![]));
    assert!(root_is_allowed(
        &path("/tmp/a"),
        &vec![None, Some(path("/opt")), Some(path("/tmp"))]
    ));
}

#[test]
fn region_files_are_named_by_index_and_kind() {
    assert_eq!(
        region_file_name(0, RegionKind::Primary),
        "region-0000-primary.bin"
    );
    assert_eq!(
        region_file_name(123, RegionKind::Fp8Scales),
        "region-0123-fp8_scales.bin"
    );
    assert_eq!(
        region_file_name(12345, RegionKind::Rope),
        "region-12345-rope.bin"
    );
}

#[test]
fn a_short_file_is_continued_with_zeros_and_a_long_one_cut() {
    let mut be = Files::new().start(SwaCachingStrategy::Full);
    let p = be.open_region(4, RegionKind::Primary, &[1, 2]).unwrap();
    let q = be
        .open_region(2, RegionKind::Primary, &[1, 2, 3, 4])
        .unwrap();
    assert_eq!(be.read_bytes(p, 4).unwrap(), vec![1, 2, 0, 0]);
    assert_eq!(be.read_bytes(q, 2).unwrap(), vec![1, 2]);
    assert!(!be.is_dirty(0));
    be.write_bytes(q, &[]).unwrap();
    assert!(!be.is_dirty(1));
    be.write_bytes(q, &[9]).unwrap();
    assert!(be.is_dirty(1));
    be.mark_clean(1);
    be.memcpy(p, q, 1).unwrap();
    assert!(be.is_dirty(1) && !be.is_dirty(0));
}

#[test]
fn the_manifest_records_kind_size_and_checksum() {
    let mut be = Files::new().start(SwaCachingStrategy::Full);
    let p = open(&mut be, 8, RegionKind::Rope);
    be.fill_pattern(p, 7, 8).unwrap();
    let entries = be.refresh_manifest().unwrap();
    assert_eq!(entries.len(), 1);
    assert_eq!(entries[0].index, 0);
    assert_eq!(entries[0].kind, "rope");
    assert_eq!(entries[0].size, 8);
    assert_eq!(
        entries[0].checksum,
        xxhash_rust::xxh3::xxh3_64(&[7u8; 8])
    );
    assert!(entries[0].agrees(RegionKind::Rope, 8, entries[0].checksum));
    assert!(!entries[0].agrees(RegionKind::Primary, 8, entries[0].checksum));
}
