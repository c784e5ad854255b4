//! The kernel heap: the pages that back it, the frames they are mapped to,
//! and the byte accounting of the allocator that manages it.
use crate::memory::{align_down, BootInfoFrameAllocator};
use linked_list_allocator::Heap;
use vstd::prelude::*;

verus! {

/// Virtual address at which the heap begins.
pub const HEAP_START: u64 = 0x_4444_4444_0000;

/// Size of the heap in bytes.
pub const HEAP_SIZE: usize = 128 * 1024;

/// Bytes of the heap that the allocator keeps for its own bookkeeping right
/// after it is set up: none, its free list lives inside the free blocks.
pub const HEAP_OVERHEAD: usize = 0;

/// Page size used for the heap mapping.
pub const PAGE_SIZE: u64 = 4096;

/// Why setting up the heap failed.
#[derive(Clone, Copy, Debug, PartialEq, Eq, Structural)]
pub enum HeapError {
    /// No usable frame was left for a heap page.
    FrameExhausted,
    /// The page table refused a mapping.
    MapFailed,
}

/// Why a single page mapping was refused.
#[derive(Clone, Copy, Debug, PartialEq, Eq, Structural)]
pub enum MapError {
    /// The page is already mapped, to the frame given.
    PageAlreadyMapped(u64),
}

/// Number of pages that cover the bytes `[start, start + size)`.
pub open spec fn page_count(start: int, size: int) -> int {
    (align_down(start + size - 1) - align_down(start)) / 4096 + 1
}

/// The pages that cover `[start, start + size)`, ascending.
pub open spec fn covering_pages(start: int, size: int) -> Seq<u64> {
    Seq::new(page_count(start, size) as nat, |k: int| (align_down(start) + 4096 * k) as u64)
}

/// The kernel heap spans exactly 32 pages.
pub proof fn lemma_heap_page_count()
    ensures
        page_count(HEAP_START as int, HEAP_SIZE as int) == 32,
        covering_pages(HEAP_START as int, HEAP_SIZE as int).len() == 32,
{
    assert(HEAP_START as int % 4096 == 0);
    assert((HEAP_START as int + HEAP_SIZE as int - 1) % 4096 == 4095);
}

/// Walks the pages of a byte range in ascending order and pairs each with a
/// fresh frame.
pub struct HeapMapper {
    next_page: u64,
    last_page: u64,
    finished: bool,
}

impl HeapMapper {
    /// The pages not yet handed out.
    pub closed spec fn remaining(&self) -> Seq<u64> {
        if self.finished {
            Seq::empty()
        } else {
            Seq::new(
                ((self.last_page - self.next_page) / 4096 + 1) as nat,
                |k: int| (self.next_page + 4096 * k) as u64,
            )
        }
    }

    pub closed spec fn wf(&self) -> bool {
        &&& self.next_page <= self.last_page
        &&& self.next_page % 4096 == 0
        &&& self.last_page % 4096 == 0
    }

    /// Prepares to map the pages that cover `[start, start + size)`.
    pub fn new(start: u64, size: u64) -> (m: Self)
        requires
            size > 0,
            start + size <= u64::MAX,
        ensures
            m.wf(),
            m.remaining() == covering_pages(start as int, size as int),
    {
        let first = start - start % PAGE_SIZE;
        let end = start + size - 1;
        let last = end - end % PAGE_SIZE;
        let m = HeapMapper { next_page: first, last_page: last, finished: false };
        assert(m.remaining() =~= covering_pages(start as int, size as int));
        m
    }

    /// Takes the next page of the range, if any is left.
    pub fn next_page(&mut self) -> (r: Option<u64>)
        requires
            old(self).wf(),
        ensures
            final(self).wf(),
            old(self).remaining().len() == 0 ==> r is None && final(self).remaining() == old(self).remaining(),
            old(self).remaining().len() > 0 ==> r == Some(old(self).remaining()[0]) && final(self).remaining() == old(self).remaining().drop_first(),
    {
        if self.finished {
            return None;
        }
        let page = self.next_page;
        if self.next_page == self.last_page {
            self.finished = true;
            assert(self.remaining() =~= old(self).remaining().drop_first());
        } else {
            self.next_page = self.next_page + PAGE_SIZE;
            assert(self.remaining() =~= old(self).remaining().drop_first());
        }
        Some(page)
    }

    /// The next `(page, frame)` pair to map, `Ok(None)` once every page has
    /// had one, or `FrameExhausted` when no frame is left for the next page.
    pub fn next_mapping(&mut self, frames: &mut BootInfoFrameAllocator) -> (r: Result<
        Option<(u64, u64)>,
        HeapError,
    >)
        requires
            old(self).wf(),
        ensures
            final(self).wf(),
            final(frames).regions() == old(frames).regions(),
            old(self).remaining().len() == 0 ==> r == Ok::<Option<(u64, u64)>, HeapError>(None)
                && *final(frames) == *old(frames),
            old(self).remaining().len() > 0 ==> final(self).remaining() == old(self).remaining().drop_first(),
            old(self).remaining().len() > 0 && old(frames).next() < old(frames).frames().len()
                && old(frames).next() < u64::MAX ==> r == Ok::<Option<(u64, u64)>, HeapError>(
                Some((old(self).remaining()[0], old(frames).frames()[old(frames).next()])),
            ),
            old(self).remaining().len() > 0 && !(old(frames).next() < old(frames).frames().len()
                && old(frames).next() < u64::MAX) ==> r == Err::<Option<(u64, u64)>, HeapError>(
                HeapError::FrameExhausted,
            ),
    {
        match self.next_page() {
            None => Ok(None),
            Some(page) => match frames.allocate_frame() {
                Some(frame) => Ok(Some((page, frame))),
                None => Err(HeapError::FrameExhausted),
            },
        }
    }
}

/// The mappings installed during one session, page to frame.
pub struct MappingSession {
    pages: Vec<(u64, u64)>,
}

/// What mapping `page` to `frame` does to a session's mappings `m`: the new
/// mappings, and the outcome.
pub open spec fn map_outcome(m: Map<u64, u64>, page: u64, frame: u64) -> (Map<u64, u64>, Result<
    (),
    MapError,
>) {
    if m.contains_key(page) {
        (m, Err(MapError::PageAlreadyMapped(m[page])))
    } else {
        (m.insert(page, frame), Ok(()))
    }
}

impl MappingSession {
    pub closed spec fn entries(&self) -> Map<u64, u64> {
        Map::new(
            |p: u64| exists|i: int| 0 <= i < self.pages@.len() && self.pages@[i].0 == p,
            |p: u64|
                self.pages@[choose|i: int| 0 <= i < self.pages@.len() && self.pages@[i].0 == p].1,
        )
    }

    pub closed spec fn wf(&self) -> bool {
        forall|i: int, j: int|
            #![trigger self.pages@[i], self.pages@[j]]
            0 <= i < j < self.pages@.len() ==> self.pages@[i].0 != self.pages@[j].0
    }

    pub fn new() -> (s: Self)
        ensures
            s.wf(),
            s.entries() == Map::<u64, u64>::empty(),
    {
        let s = MappingSession { pages: Vec::new() };
        assert(s.entries() =~= Map::<u64, u64>::empty());
        s
    }

    /// The frame `page` is mapped to in this session, if it is.
    pub fn lookup(&self, page: u64) -> (r: Option<u64>)
        requires
            self.wf(),
        ensures
            r == (if self.entries().contains_key(page) {
                Some(self.entries()[page])
            } else {
                None
            }),
    {
        let mut i: usize = 0;
        while i < self.pages.len()
            invariant
                0 <= i <= self.pages@.len(),
                self.wf(),
                forall|k: int| 0 <= k < i ==> #[trigger] self.pages@[k].0 != page,
            decreases self.pages.len() - i,
        {
            if self.pages[i].0 == page {
                proof {
                    assert(self.pages@[i as int].0 == page);
                    assert(self.entries().contains_key(page));
                    let c = choose|k: int| 0 <= k < self.pages@.len() && self.pages@[k].0 == page;
                    assert(c == i) by {
                        if c != i {
                            if c < i {
                                assert(self.pages@[c].0 != self.pages@[i as int].0);
                            } else {
                                assert(self.pages@[i as int].0 != self.pages@[c].0);
                            }
                        }
                    }
                }
                return Some(self.pages[i].1);
            }
            i += 1;
        }
        None
    }

    /// Records that `page` maps to `frame`; a page mapped earlier in the
    /// session is refused and keeps its frame.
    pub fn map(&mut self, page: u64, frame: u64) -> (r: Result<(), MapError>)
        requires
            old(self).wf(),
        ensures
            final(self).wf(),
            (final(self).entries(), r) == map_outcome(old(self).entries(), page, frame),
    {
        match self.lookup(page) {
            Some(existing) => Err(MapError::PageAlreadyMapped(existing)),
            None => {
                self.pages.push((page, frame));
                proof {
                    let old_m = old(self).entries();
                    let new_m = self.entries();
                    assert forall|p: u64| new_m.contains_key(p) == old_m.insert(page, frame).contains_key(p) by {
                        if p == page {
                            assert(self.pages@[self.pages@.len() - 1].0 == p);
                        } else if new_m.contains_key(p) {
                            let i = choose|i: int| 0 <= i < self.pages@.len() && self.pages@[i].0 == p;
                            assert(old(self).pages@[i].0 == p);
                        } else if old_m.contains_key(p) {
                            let i = choose|i: int| 0 <= i < old(self).pages@.len() && old(self).pages@[i].0 == p;
                            assert(self.pages@[i].0 == p);
                        }
                    }
                    assert forall|p: u64| #[trigger] new_m.contains_key(p) implies new_m[p] == old_m.insert(page, frame)[p] by {
                        let c = choose|k: int| 0 <= k < self.pages@.len() && self.pages@[k].0 == p;
                        if p == page {
                            let last = self.pages@.len() - 1;
                            if c != last {
                                assert(self.pages@[c] == old(self).pages@[c]);
                            }
                        } else {
                            let c0 = choose|k: int| 0 <= k < old(self).pages@.len() && old(self).pages@[k].0 == p;
                            assert(self.pages@[c0].0 == p);
                            if c != c0 {
                                if c < c0 {
                                    assert(self.pages@[c].0 != self.pages@[c0].0);
                                } else {
                                    assert(self.pages@[c0].0 != self.pages@[c].0);
                                }
                            }
                        }
                    }
                    assert(new_m =~= old_m.insert(page, frame));
                }
                Ok(())
            },
        }
    }
}

/// Mapping a page a second time in a session, without unmapping it first,
/// is refused with a conflict that names the first frame, and changes
/// nothing.
pub proof fn lemma_map_twice_conflicts(m: Map<u64, u64>, page: u64, f: u64, g: u64)
    ensures
        ({
            let (m1, _) = map_outcome(m, page, f);
            let (m2, r2) = map_outcome(m1, page, g);
            &&& r2 == Err::<(), MapError>(MapError::PageAlreadyMapped(m1[page]))
            &&& m2 == m1
            &&& !m.contains_key(page) ==> m1[page] == f
        }),
{
}

#[verifier::external_type_specification]
#[verifier::external_body]
pub struct ExHeap(Heap);

/// Number of bytes the allocator manages.
pub uninterp spec fn heap_size(h: Heap) -> usize;

/// Number of bytes currently handed out by the allocator.
pub uninterp spec fn heap_used(h: Heap) -> usize;

/// Relies on linked_list_allocator's `Heap::used`: the `used` counter that
/// allocation raises and deallocation lowers.
pub assume_specification[ Heap::used ](h: &Heap) -> (r: usize)
    ensures
        r == heap_used(*h),
;

/// Relies on linked_list_allocator's `Heap::free`: `size() - used`, where
/// the allocator never lets `used` exceed its size.
pub assume_specification[ Heap::free ](h: &Heap) -> (r: usize)
    ensures
        r == heap_size(*h) - heap_used(*h),
;

/// Bytes of the heap in use.
pub fn used(heap: &Heap) -> (r: usize)
    ensures
        r == heap_used(*heap),
{
    heap.used()
}

/// Bytes of the heap still available.
pub fn free(heap: &Heap) -> (r: usize)
    ensures
        r == heap_size(*heap) - heap_used(*heap),
        r + heap_used(*heap) == heap_size(*heap),
{
    heap.free()
}

/// Used and free bytes read from one and the same state of the heap; they
/// always add up to the size of the heap.
pub fn usage(heap: &Heap) -> (r: (usize, usize))
    ensures
        r.0 == heap_used(*heap),
        r.0 + r.1 == heap_size(*heap),
{
    let f = heap.free();
    (heap.used(), f)
}

} // verus!
