use kernel_core::memory::{nth_usable_frame, BootInfoFrameAllocator, MemoryRegion, RegionKind};

fn region(start: u64, end: u64, kind: RegionKind) -> MemoryRegion {
    MemoryRegion { start, end, kind }
}

#[test]
fn frames_skip_reserved_then_run_out() {
    let regions = vec![
        region(0x0, 0x1000, RegionKind::Reserved),
        region(0x1000, 0x5000, RegionKind::Usable),
    ];
    let mut a = BootInfoFrameAllocator::new(&regions);
    assert_eq!(a.allocate_frame(), Some(0x1000));
    assert_eq!(a.allocate_frame(), Some(0x2000));
    assert_eq!(a.allocate_frame(), Some(0x3000));
    assert_eq!(a.allocate_frame(), Some(0x4000));
    assert_eq!(a.allocate_frame(), None);
    assert_eq!(a.allocate_frame(), None);
}

#[test]
fn frames_ascend_and_stay_in_usable_regions() {
    let regions = vec![
        region(0x0, 0x2000, RegionKind::Usable),
        region(0x2000, 0x8000, RegionKind::Reserved),
        region(0x8000, 0xa000, RegionKind::Usable),
        region(0x10000, 0x10800, RegionKind::Usable),
    ];
    let mut a = BootInfoFrameAllocator::new(&regions);
    let mut got = Vec::new();
    while let Some(f) = a.allocate_frame() {
        got.push(f);
    }
    assert_eq!(got, vec![0x0, 0x1000, 0x8000, 0x9000, 0x10000]);
    for w in got.windows(2) {
        assert!(w[0] < w[1]);
    }
    for f in &got {
        assert!(regions
            .iter()
            .any(|r| r.kind == RegionKind::Usable && r.start <= *f && *f < r.end));
    }
}

#[test]
fn empty_region_list_has_no_frames() {
    let mut a = BootInfoFrameAllocator::new(&[]);
    assert_eq!(a.allocate_frame(), None);
}

#[test]
fn unaligned_start_gives_containing_frame() {
    let regions = vec![region(0x1800, 0x3000, RegionKind::Usable)];
    assert_eq!(nth_usable_frame(&regions, 0), Some(0x1000));
    assert_eq!(nth_usable_frame(&regions, 1), Some(0x2000));
    assert_eq!(nth_usable_frame(&regions, 2), None);
}

#[test]
fn empty_and_inverted_regions_give_nothing() {
    let regions = vec![
        region(0x5000, 0x5000, RegionKind::Usable),
        region(0x9000, 0x4000, RegionKind::Usable),
        region(0xa000, 0xa001, RegionKind::Usable),
    ];
    assert_eq!(nth_usable_frame(&regions, 0), Some(0xa000));
    assert_eq!(nth_usable_frame(&regions, 1), None);
}

#[test]
fn region_at_top_of_address_space() {
    let regions = vec![region(u64::MAX - 0x1fff, u64::MAX, RegionKind::Usable)];
    assert_eq!(nth_usable_frame(&regions, 0), Some(u64::MAX - 0x1fff));
    assert_eq!(nth_usable_frame(&regions, 1), Some(u64::MAX - 0xfff));
    assert_eq!(nth_usable_frame(&regions, 2), None);
}
