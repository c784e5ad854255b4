//! Physical memory: the region list handed over at boot and a bump allocator
//! of 4 KiB frames drawn from its usable regions.
use vstd::arithmetic::div_mod::{lemma_fundamental_div_mod, lemma_mod_multiples_vanish};
use vstd::prelude::*;

verus! {

/// Size in bytes of a physical frame and of a virtual page.
pub const FRAME_SIZE: u64 = 4096;

/// What a physical memory region may be used for.
#[derive(Clone, Copy, Debug, PartialEq, Eq, Structural)]
pub enum RegionKind {
    Usable,
    Reserved,
}

/// A physical range `[start, end)` and its kind.
#[derive(Clone, Copy, Debug, PartialEq, Eq, Structural)]
pub struct MemoryRegion {
    pub start: u64,
    pub end: u64,
    pub kind: RegionKind,
}

/// Start of the 4 KiB frame that contains `addr`.
pub open spec fn align_down(addr: int) -> int {
    addr - addr % 4096
}

/// Number of addresses `start, start + 4096, ...` below `end`.
pub open spec fn frame_count(r: MemoryRegion) -> int {
    if r.end > r.start {
        (r.end - r.start - 1) / 4096 + 1
    } else {
        0
    }
}

/// Frames contributed by one region: none unless it is usable.
pub open spec fn region_frames(r: MemoryRegion) -> Seq<u64> {
    if r.kind == RegionKind::Usable {
        Seq::new(frame_count(r) as nat, |k: int| align_down(r.start + 4096 * k) as u64)
    } else {
        Seq::empty()
    }
}

/// All frames of the usable regions, region by region, in list order.
pub open spec fn usable_frames(rs: Seq<MemoryRegion>) -> Seq<u64>
    decreases rs.len(),
{
    if rs.len() == 0 {
        Seq::empty()
    } else {
        usable_frames(rs.drop_last()) + region_frames(rs.last())
    }
}

/// A region list as the boot stage describes it: regions ascending and
/// disjoint, each usable one starting on a frame boundary.
pub open spec fn regions_ordered(rs: Seq<MemoryRegion>) -> bool {
    &&& forall|i: int, j: int|
        #![trigger rs[i], rs[j]]
        0 <= i < j < rs.len() ==> rs[i].end <= rs[j].start
    &&& forall|i: int|
        0 <= i < rs.len() && rs[i].kind == RegionKind::Usable ==> #[trigger] rs[i].start % 4096
            == 0
}

proof fn lemma_frame_offset_fits(r: MemoryRegion, k: int)
    requires
        0 <= k < frame_count(r),
    ensures
        r.start + 4096 * k < r.end,
{
    let d = r.end - r.start - 1;
    lemma_fundamental_div_mod(d, 4096);
    assert(4096 * k <= 4096 * (d / 4096)) by (nonlinear_arith)
        requires
            k <= d / 4096,
    ;
}

proof fn lemma_prefix_frames(rs: Seq<MemoryRegion>, i: int)
    requires
        0 <= i <= rs.len(),
    ensures
        usable_frames(rs.take(i)).len() <= usable_frames(rs).len(),
        forall|n: int|
            0 <= n < usable_frames(rs.take(i)).len() ==> #[trigger] usable_frames(rs.take(i))[n]
                == usable_frames(rs)[n],
    decreases rs.len(),
{
    if i == rs.len() {
        assert(rs.take(i) =~= rs);
    } else {
        let p = rs.drop_last();
        assert(rs.take(i) =~= p.take(i));
        lemma_prefix_frames(p, i);
    }
}

proof fn lemma_take_step(rs: Seq<MemoryRegion>, i: int)
    requires
        0 <= i < rs.len(),
    ensures
        usable_frames(rs.take(i + 1)) == usable_frames(rs.take(i)) + region_frames(rs[i]),
{
    assert(rs.take(i + 1).drop_last() =~= rs.take(i));
}

/// Every frame lies inside a usable region of the list.
pub proof fn lemma_frames_usable(rs: Seq<MemoryRegion>, n: int)
    requires
        regions_ordered(rs),
        0 <= n < usable_frames(rs).len(),
    ensures
        exists|k: int|
            0 <= k < rs.len() && rs[k].kind == RegionKind::Usable && rs[k].start
                <= #[trigger] usable_frames(rs)[n] < rs[k].end,
    decreases rs.len(),
{
    let p = rs.drop_last();
    let last = rs.last();
    assert(regions_ordered(p));
    if n < usable_frames(p).len() {
        lemma_frames_usable(p, n);
        let k = choose|k: int|
            0 <= k < p.len() && p[k].kind == RegionKind::Usable && p[k].start
                <= #[trigger] usable_frames(p)[n] < p[k].end;
        assert(rs[k] == p[k]);
    } else {
        let j = n - usable_frames(p).len();
        assert(rs[rs.len() - 1] == last);
        lemma_frame_offset_fits(last, j);
        lemma_mod_multiples_vanish(j, last.start as int, 4096);
        assert(usable_frames(rs)[n] == region_frames(last)[j]);
    }
}

/// Frames come in strictly ascending order of their start addresses.
pub proof fn lemma_frames_ascending(rs: Seq<MemoryRegion>, i: int, j: int)
    requires
        regions_ordered(rs),
        0 <= i < j < usable_frames(rs).len(),
    ensures
        usable_frames(rs)[i] < usable_frames(rs)[j],
    decreases rs.len(),
{
    let p = rs.drop_last();
    let last = rs.last();
    let m = usable_frames(p).len();
    assert(regions_ordered(p));
    if j < m {
        lemma_frames_ascending(p, i, j);
    } else {
        let b = j - m;
        lemma_mod_multiples_vanish(b, last.start as int, 4096);
        lemma_frame_offset_fits(last, b);
        assert(usable_frames(rs)[j] == last.start + 4096 * b);
        if i < m {
            lemma_frames_usable(p, i);
            let k = choose|k: int|
                0 <= k < p.len() && p[k].kind == RegionKind::Usable && p[k].start
                    <= #[trigger] usable_frames(p)[i] < p[k].end;
            assert(rs[k] == p[k]);
            assert(rs[k].end <= rs[rs.len() - 1].start);
        } else {
            let a = i - m;
            lemma_mod_multiples_vanish(a, last.start as int, 4096);
            assert(usable_frames(rs)[i] == last.start + 4096 * a);
        }
    }
}

/// The `n`-th frame of the usable regions, counting from zero.
pub fn nth_usable_frame(regions: &[MemoryRegion], n: u64) -> (r: Option<u64>)
    ensures
        r == (if (n as int) < usable_frames(regions@).len() {
            Some(usable_frames(regions@)[n as int])
        } else {
            None
        }),
{
    let mut i: usize = 0;
    let mut rem: u64 = n;
    while i < regions.len()
        invariant
            0 <= i <= regions.len(),
            n as int == rem as int + usable_frames(regions@.take(i as int)).len(),
        decreases regions.len() - i,
    {
        let r = regions[i];
        proof {
            lemma_take_step(regions@, i as int);
        }
        match r.kind {
            RegionKind::Usable => {
                if r.end > r.start {
                    let count: u64 = (r.end - r.start - 1) / FRAME_SIZE + 1;
                    if rem < count {
                        proof {
                            lemma_frame_offset_fits(r, rem as int);
                            lemma_prefix_frames(regions@, i + 1);
                        }
                        let addr: u64 = r.start + FRAME_SIZE * rem;
                        proof {
                            let pre = usable_frames(regions@.take(i as int));
                            let cur = usable_frames(regions@.take(i + 1));
                            assert(r == regions@[i as int]);
                            assert(cur[n as int] == region_frames(r)[rem as int]);
                            assert(usable_frames(regions@)[n as int] == cur[n as int]);
                        }
                        return Some(addr - addr % FRAME_SIZE);
                    }
                    rem = rem - count;
                }
            },
            RegionKind::Reserved => {},
        }
        i += 1;
    }
    assert(regions@.take(i as int) =~= regions@);
    None
}

/// Hands out the frames of the usable regions one after another and never
/// takes one back.
pub struct BootInfoFrameAllocator<'a> {
    regions: &'a [MemoryRegion],
    next: u64,
}

impl<'a> BootInfoFrameAllocator<'a> {
    /// The region list the frames are drawn from.
    pub closed spec fn regions(&self) -> Seq<MemoryRegion> {
        self.regions@
    }

    /// How many frames have been handed out.
    pub closed spec fn next(&self) -> int {
        self.next as int
    }

    /// The whole sequence of frames this allocator can hand out.
    pub open spec fn frames(&self) -> Seq<u64> {
        usable_frames(self.regions())
    }

    pub fn new(regions: &'a [MemoryRegion]) -> (a: Self)
        ensures
            a.regions() == regions@,
            a.next() == 0,
    {
        BootInfoFrameAllocator { regions, next: 0 }
    }

    /// Takes the next frame; `None` once the usable regions are used up.
    pub fn allocate_frame(&mut self) -> (r: Option<u64>)
        ensures
            final(self).regions() == old(self).regions(),
            old(self).next() < old(self).frames().len() && old(self).next() < u64::MAX ==> {
                &&& r == Some(old(self).frames()[old(self).next()])
                &&& final(self).next() == old(self).next() + 1
            },
            !(old(self).next() < old(self).frames().len() && old(self).next() < u64::MAX) ==> {
                &&& r is None
                &&& final(self).next() == old(self).next()
            },
            regions_ordered(old(self).regions()) && r is Some ==> forall|k: int|
                0 <= k < old(self).next() ==> #[trigger] old(self).frames()[k] < r->0,
    {
        if self.next == u64::MAX {
            return None;
        }
        let frame = nth_usable_frame(self.regions, self.next);
        if frame.is_some() {
            self.next = self.next + 1;
            proof {
                assert forall|k: int| 0 <= k < old(self).next() && regions_ordered(self.regions@)
                    implies #[trigger] old(self).frames()[k] < frame->0 by {
                    lemma_frames_ascending(self.regions@, k, old(self).next());
                }
            }
        }
        frame
    }
}

} // verus!
