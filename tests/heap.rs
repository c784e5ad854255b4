use kernel_core::heap::{
    free, usage, used, HeapError, HeapMapper, MapError, MappingSession, HEAP_OVERHEAD,
    HEAP_SIZE, HEAP_START,
};
use kernel_core::memory::{BootInfoFrameAllocator, MemoryRegion, RegionKind};
use linked_list_allocator::Heap;
use std::mem::MaybeUninit;

const BIG: [MemoryRegion; 1] = [MemoryRegion {
    start: 0x10_0000,
    end: 0x20_0000,
    kind: RegionKind::Usable,
}];

#[test]
fn heap_maps_exactly_32_pages() {
    let mut frames = BootInfoFrameAllocator::new(&BIG);
    let mut mapper = HeapMapper::new(HEAP_START, HEAP_SIZE as u64);
    let mut pages = Vec::new();
    while let Some((page, frame)) = mapper.next_mapping(&mut frames).unwrap() {
        pages.push((page, frame));
    }
    assert_eq!(pages.len(), 32);
    assert_eq!(pages[0], (0x4444_4444_0000, 0x10_0000));
    assert_eq!(pages[31], (0x4444_4445_f000, 0x11_f000));
    assert_eq!(mapper.next_mapping(&mut frames), Ok(None));
}

#[test]
fn unaligned_range_covers_partial_pages() {
    let mut mapper = HeapMapper::new(0x1ff0, 0x20);
    assert_eq!(mapper.next_page(), Some(0x1000));
    assert_eq!(mapper.next_page(), Some(0x2000));
    assert_eq!(mapper.next_page(), None);
}

#[test]
fn heap_mapping_fails_without_frames() {
    let small = [MemoryRegion { start: 0, end: 0x2000, kind: RegionKind::Usable }];
    let mut frames = BootInfoFrameAllocator::new(&small);
    let mut mapper = HeapMapper::new(HEAP_START, HEAP_SIZE as u64);
    assert!(matches!(mapper.next_mapping(&mut frames), Ok(Some(_))));
    assert!(matches!(mapper.next_mapping(&mut frames), Ok(Some(_))));
    assert_eq!(mapper.next_mapping(&mut frames), Err(HeapError::FrameExhausted));
}

#[test]
fn mapping_a_page_twice_conflicts() {
    let mut session = MappingSession::new();
    assert_eq!(session.map(0x4000, 0x9000), Ok(()));
    assert_eq!(session.map(0x5000, 0xa000), Ok(()));
    assert_eq!(session.map(0x4000, 0xb000), Err(MapError::PageAlreadyMapped(0x9000)));
    assert_eq!(session.lookup(0x4000), Some(0x9000));
    assert_eq!(session.lookup(0x6000), None);
}

#[test]
fn empty_heap_has_no_bytes() {
    let heap = Heap::empty();
    assert_eq!(used(&heap), 0);
    assert_eq!(free(&heap), 0);
    assert_eq!(usage(&heap), (0, 0));
}

#[test]
fn fresh_heap_is_all_free_and_accounts_exactly() {
    let mem: &'static mut [MaybeUninit<u8>] =
        Box::leak(vec![MaybeUninit::<u8>::uninit(); HEAP_SIZE].into_boxed_slice());
    let mut heap = Heap::from_slice(mem);
    assert_eq!(used(&heap), 0);
    assert_eq!(free(&heap), HEAP_SIZE - HEAP_OVERHEAD);
    let layout = std::alloc::Layout::from_size_align(100, 8).unwrap();
    let _block = heap.allocate_first_fit(layout).unwrap();
    let (u, f) = usage(&heap);
    assert!(u >= 100);
    assert_eq!(u + f, HEAP_SIZE);
}
