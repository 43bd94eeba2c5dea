//! Physical frames handed out one by one from the firmware's memory map.
use vstd::prelude::*;

verus! {

/// Size of one physical frame in bytes.
pub const FRAME_SIZE: u64 = 4096;

/// Physical addresses lie below this bound (52 address bits).
pub const PHYS_ADDR_LIMIT: u64 = 0x10_0000_0000_0000;

/// What the firmware reports a memory region to be.
#[derive(Clone, Copy, Debug, PartialEq, Eq, Structural)]
pub enum MemoryRegionKind {
    Usable,
    Reserved,
    Other,
}

/// A range `[start, end)` of physical memory and its kind.
#[derive(Clone, Copy, Debug, PartialEq, Eq, Structural)]
pub struct MemoryRegion {
    pub start: u64,
    pub end: u64,
    pub kind: MemoryRegionKind,
}

/// Smallest multiple of the frame size that is not below `a`.
pub open spec fn frame_align_up(a: int) -> int {
    if a % (FRAME_SIZE as int) == 0 {
        a
    } else {
        a - a % (FRAME_SIZE as int) + FRAME_SIZE
    }
}

/// Start of the first whole frame of a region.
pub open spec fn first_frame(r: MemoryRegion) -> int {
    frame_align_up(r.start as int)
}

/// Number of whole frames inside `[start, end)` of a usable region; none for
/// a region of another kind.
pub open spec fn region_frame_count(r: MemoryRegion) -> nat {
    if r.kind == MemoryRegionKind::Usable && first_frame(r) + FRAME_SIZE <= r.end {
        ((r.end - first_frame(r)) / (FRAME_SIZE as int)) as nat
    } else {
        0
    }
}

/// Frames of one region: the frame-aligned addresses `a` with
/// `start <= a` and `a + 4096 <= end`, ascending.
pub open spec fn region_frames(r: MemoryRegion) -> Seq<int> {
    Seq::new(region_frame_count(r), |k: int| first_frame(r) + k * (FRAME_SIZE as int))
}

/// Frames of the usable regions of `rs`, region after region.
pub open spec fn usable_frames(rs: Seq<MemoryRegion>) -> Seq<int>
    decreases rs.len(),
{
    if rs.len() == 0 {
        Seq::empty()
    } else {
        usable_frames(rs.drop_last()) + region_frames(rs.last())
    }
}

/// Every usable region lies below the physical address limit.
pub open spec fn regions_valid(rs: Seq<MemoryRegion>) -> bool {
    forall|i: int|
        0 <= i < rs.len() && (#[trigger] rs[i]).kind == MemoryRegionKind::Usable ==> rs[i].end
            <= PHYS_ADDR_LIMIT
}

/// Relies on x86_64's `PhysAddr::new` (panics from bit 52 on) and
/// `PhysAddr::align_up`, which rounds up to a multiple of the alignment and
/// panics when the result reaches bit 52; the bound keeps both away.
#[verifier::external_body]
fn frame_align_up_addr(addr: u64) -> (r: u64)
    requires
        addr <= PHYS_ADDR_LIMIT - FRAME_SIZE,
    ensures
        r == frame_align_up(addr as int),
{
    x86_64::PhysAddr::new(addr).align_up(FRAME_SIZE).as_u64()
}

proof fn lemma_usable_frames_prefix(rs: Seq<MemoryRegion>, j: int)
    requires
        0 <= j <= rs.len(),
    ensures
        usable_frames(rs.take(j)).len() <= usable_frames(rs).len(),
        usable_frames(rs.take(j)) == usable_frames(rs).take(usable_frames(rs.take(j)).len() as int),
    decreases rs.len(),
{
    if j == rs.len() {
        assert(rs.take(j) =~= rs);
    } else {
        lemma_usable_frames_prefix(rs.drop_last(), j);
        assert(rs.drop_last().take(j) =~= rs.take(j));
        assert(usable_frames(rs) == usable_frames(rs.drop_last()) + region_frames(rs.last()));
        assert(usable_frames(rs.take(j)) =~= usable_frames(rs).take(
            usable_frames(rs.take(j)).len() as int,
        ));
    }
}

/// Every usable region starts and ends on a frame boundary.
pub open spec fn usable_aligned(rs: Seq<MemoryRegion>) -> bool {
    forall|i: int|
        0 <= i < rs.len() && (#[trigger] rs[i]).kind == MemoryRegionKind::Usable ==> rs[i].start
            % FRAME_SIZE == 0 && rs[i].end % FRAME_SIZE == 0
}

/// No two non-empty usable regions overlap.
pub open spec fn usable_disjoint(rs: Seq<MemoryRegion>) -> bool {
    forall|i: int, j: int|
        0 <= i < rs.len() && 0 <= j < rs.len() && i != j && (#[trigger] rs[i]).kind
            == MemoryRegionKind::Usable && (#[trigger] rs[j]).kind == MemoryRegionKind::Usable
            && rs[i].start < rs[i].end && rs[j].start < rs[j].end ==> rs[i].end <= rs[j].start
            || rs[j].end <= rs[i].start
}

/// Each non-empty usable region ends before any later one starts.
pub open spec fn usable_ascending(rs: Seq<MemoryRegion>) -> bool {
    forall|i: int, j: int|
        0 <= i < j < rs.len() && (#[trigger] rs[i]).kind == MemoryRegionKind::Usable && (
        #[trigger] rs[j]).kind == MemoryRegionKind::Usable && rs[i].start < rs[i].end && rs[j].start
            < rs[j].end ==> rs[i].end <= rs[j].start
}

/// Total number of bytes in the usable regions of `rs`.
pub open spec fn usable_bytes(rs: Seq<MemoryRegion>) -> int
    decreases rs.len(),
{
    if rs.len() == 0 {
        0
    } else {
        let r = rs.last();
        usable_bytes(rs.drop_last()) + if r.kind == MemoryRegionKind::Usable && r.start < r.end {
            r.end - r.start
        } else {
            0
        }
    }
}

proof fn lemma_region_frame(r: MemoryRegion, k: int)
    requires
        0 <= k < region_frame_count(r),
    ensures
        r.kind == MemoryRegionKind::Usable,
        region_frames(r)[k] % (FRAME_SIZE as int) == 0,
        r.start <= region_frames(r)[k],
        region_frames(r)[k] + FRAME_SIZE <= r.end,
{
    let first = first_frame(r);
    let n = r.end - first;
    assert(first % 4096 == 0 && r.start <= first);
    assert(k * 4096 + 4096 <= n) by (nonlinear_arith)
        requires
            0 <= k < n / 4096,
    ;
    assert((first + k * 4096) % 4096 == 0) by (nonlinear_arith)
        requires
            first % 4096 == 0,
    ;
}

/// Every frame handed out is frame-aligned and lies, whole, inside one
/// usable region.
pub proof fn lemma_frame_in_usable_region(rs: Seq<MemoryRegion>, k: int)
    requires
        0 <= k < usable_frames(rs).len(),
    ensures
        usable_frames(rs)[k] % (FRAME_SIZE as int) == 0,
        exists|i: int|
            0 <= i < rs.len() && (#[trigger] rs[i]).kind == MemoryRegionKind::Usable && rs[i].start
                <= usable_frames(rs)[k] && usable_frames(rs)[k] + FRAME_SIZE <= rs[i].end,
    decreases rs.len(),
{
    let pre = usable_frames(rs.drop_last());
    let last = rs.last();
    assert(usable_frames(rs) == pre + region_frames(last));
    if k < pre.len() {
        lemma_frame_in_usable_region(rs.drop_last(), k);
        let i = choose|i: int|
            0 <= i < rs.drop_last().len() && (#[trigger] rs.drop_last()[i]).kind
                == MemoryRegionKind::Usable && rs.drop_last()[i].start <= pre[k] && pre[k]
                + FRAME_SIZE <= rs.drop_last()[i].end;
        assert(rs[i] == rs.drop_last()[i]);
    } else {
        lemma_region_frame(last, k - pre.len());
        assert(rs[rs.len() - 1] == last);
    }
}

/// Frames handed out from usable regions that do not overlap never overlap
/// each other; in particular none is handed out twice.
pub proof fn lemma_frames_disjoint(rs: Seq<MemoryRegion>)
    requires
        usable_disjoint(rs),
    ensures
        forall|a: int, b: int|
            0 <= a < b < usable_frames(rs).len() ==> #[trigger] usable_frames(rs)[a] + FRAME_SIZE
                <= #[trigger] usable_frames(rs)[b] || usable_frames(rs)[b] + FRAME_SIZE
                <= usable_frames(rs)[a],
    decreases rs.len(),
{
    if rs.len() > 0 {
        let dl = rs.drop_last();
        assert(usable_disjoint(dl));
        lemma_frames_disjoint(dl);
        let fs = usable_frames(rs);
        let pre = usable_frames(dl);
        let last = rs.last();
        let li = rs.len() - 1;
        assert(rs[li] == last);
        assert(fs == pre + region_frames(last));
        assert forall|a: int, b: int| 0 <= a < b < fs.len() implies #[trigger] fs[a] + FRAME_SIZE
            <= #[trigger] fs[b] || fs[b] + FRAME_SIZE <= fs[a] by {
            if b < pre.len() {
                assert(fs[a] == pre[a] && fs[b] == pre[b]);
            } else if a >= pre.len() {
                lemma_region_frame(last, a - pre.len());
            } else {
                lemma_frame_in_usable_region(dl, a);
                let i = choose|i: int|
                    0 <= i < dl.len() && (#[trigger] dl[i]).kind == MemoryRegionKind::Usable
                        && dl[i].start <= pre[a] && pre[a] + FRAME_SIZE <= dl[i].end;
                assert(rs[i] == dl[i]);
                lemma_region_frame(last, b - pre.len());
            }
        }
    }
}

/// Frames come out in ascending order, one whole frame apart at least, when
/// the usable regions are listed in ascending order.
pub proof fn lemma_frames_ascending(rs: Seq<MemoryRegion>)
    requires
        usable_ascending(rs),
    ensures
        forall|a: int, b: int|
            0 <= a < b < usable_frames(rs).len() ==> #[trigger] usable_frames(rs)[a] + FRAME_SIZE
                <= #[trigger] usable_frames(rs)[b],
    decreases rs.len(),
{
    if rs.len() > 0 {
        let dl = rs.drop_last();
        assert(usable_ascending(dl));
        lemma_frames_ascending(dl);
        let fs = usable_frames(rs);
        let pre = usable_frames(dl);
        let last = rs.last();
        let li = rs.len() - 1;
        assert(rs[li] == last);
        assert(fs == pre + region_frames(last));
        assert forall|a: int, b: int| 0 <= a < b < fs.len() implies #[trigger] fs[a] + FRAME_SIZE
            <= #[trigger] fs[b] by {
            if b < pre.len() {
                assert(fs[a] == pre[a] && fs[b] == pre[b]);
            } else if a >= pre.len() {
                lemma_region_frame(last, a - pre.len());
            } else {
                lemma_frame_in_usable_region(dl, a);
                let i = choose|i: int|
                    0 <= i < dl.len() && (#[trigger] dl[i]).kind == MemoryRegionKind::Usable
                        && dl[i].start <= pre[a] && pre[a] + FRAME_SIZE <= dl[i].end;
                assert(rs[i] == dl[i]);
                lemma_region_frame(last, b - pre.len());
            }
        }
    }
}

/// With usable regions on frame boundaries and apart from each other, the
/// allocator has exactly one frame per 4096 usable bytes to hand out, and no
/// two of them overlap.
pub proof fn lemma_frames_count_and_disjoint(rs: Seq<MemoryRegion>)
    requires
        usable_aligned(rs),
        usable_disjoint(rs),
    ensures
        usable_frames(rs).len() == usable_bytes(rs) / (FRAME_SIZE as int),
        forall|a: int, b: int|
            0 <= a < b < usable_frames(rs).len() ==> #[trigger] usable_frames(rs)[a] + FRAME_SIZE
                <= #[trigger] usable_frames(rs)[b] || usable_frames(rs)[b] + FRAME_SIZE
                <= usable_frames(rs)[a],
{
    lemma_frames_count_times(rs);
    lemma_frames_disjoint(rs);
    let fs = usable_frames(rs);
    assert(fs.len() == usable_bytes(rs) / 4096) by (nonlinear_arith)
        requires
            fs.len() * 4096 == usable_bytes(rs),
    ;
}

proof fn lemma_frames_count_times(rs: Seq<MemoryRegion>)
    requires
        usable_aligned(rs),
    ensures
        usable_frames(rs).len() * 4096 == usable_bytes(rs),
    decreases rs.len(),
{
    if rs.len() > 0 {
        let dl = rs.drop_last();
        assert(usable_aligned(dl));
        lemma_frames_count_times(dl);
        let last = rs.last();
        assert(rs[rs.len() - 1] == last);
        if last.kind == MemoryRegionKind::Usable && last.start < last.end {
            let n = last.end - last.start;
            assert(first_frame(last) == last.start);
            assert((n / 4096) * 4096 == n && n >= 4096) by (nonlinear_arith)
                requires
                    last.start % 4096 == 0,
                    last.end % 4096 == 0,
                    n == last.end - last.start,
                    n > 0,
            ;
        }
        assert(usable_frames(rs).len() == usable_frames(dl).len() + region_frame_count(last));
    }
}

/// Hands out the usable frames of a memory map in order, each once.
pub struct KernelFrameAllocator {
    memory_regions: Vec<MemoryRegion>,
    next: usize,
}

impl KernelFrameAllocator {
    /// The memory map that frames are taken from.
    pub closed spec fn regions(&self) -> Seq<MemoryRegion> {
        self.memory_regions@
    }

    /// Every usable region lies below the physical address limit.
    pub closed spec fn wf(&self) -> bool {
        regions_valid(self.memory_regions@)
    }

    /// Index of the next frame to hand out.
    pub closed spec fn cursor(&self) -> nat {
        self.next as nat
    }

    /// An allocator over `memory_regions` that has handed out nothing yet.
    pub fn init(memory_regions: Vec<MemoryRegion>) -> (r: KernelFrameAllocator)
        requires
            regions_valid(memory_regions@),
        ensures
            r.wf(),
            r.regions() == memory_regions@,
            r.cursor() == 0,
    {
        KernelFrameAllocator { memory_regions, next: 0 }
    }

    /// The frame at `index` of the usable frames, if there is one.
    fn usable_frame(&self, index: usize) -> (r: Option<u64>)
        requires
            regions_valid(self.regions()),
        ensures
            r is Some <==> index < usable_frames(self.regions()).len(),
            r is Some ==> r->0 == usable_frames(self.regions())[index as int],
    {
        let ghost rs = self.memory_regions@;
        let mut rest: usize = index;
        let mut i: usize = 0;
        while i < self.memory_regions.len()
            invariant
                rs == self.memory_regions@,
                regions_valid(rs),
                0 <= i <= rs.len(),
                rest + usable_frames(rs.take(i as int)).len() == index,
            decreases rs.len() - i,
        {
            let region = self.memory_regions[i];
            proof {
                assert(rs.take(i + 1).drop_last() =~= rs.take(i as int));
                assert(rs.take(i + 1).last() == region);
            }
            if region.kind == MemoryRegionKind::Usable && region.start < region.end && region.start
                <= PHYS_ADDR_LIMIT - FRAME_SIZE {
                let first = frame_align_up_addr(region.start);
                if first < region.end && region.end - first >= FRAME_SIZE {
                    let count = (region.end - first) / FRAME_SIZE;
                    assert(count == region_frame_count(region));
                    if (rest as u64) < count {
                        proof {
                            lemma_usable_frames_prefix(rs, i + 1);
                            assert(rest * 4096 + 4096 <= region.end - first) by (nonlinear_arith)
                                requires
                                    rest < count,
                                    count == (region.end - first) / 4096,
                            ;
                        }
                        let frame = first + (rest as u64) * FRAME_SIZE;
                        proof {
                            let pre = usable_frames(rs.take(i as int));
                            assert(usable_frames(rs.take(i + 1)) == pre + region_frames(region));
                            assert(usable_frames(rs.take(i + 1))[index as int] == region_frames(
                                region,
                            )[rest as int]);
                        }
                        return Some(frame);
                    }
                    rest = rest - count as usize;
                } else {
                    assert(region_frame_count(region) == 0);
                }
            } else {
                assert(region_frame_count(region) == 0);
            }
            i = i + 1;
        }
        proof {
            assert(rs.take(rs.len() as int) =~= rs);
        }
        None
    }
    /// Hands out the next usable frame, by its start address, and moves the
    /// cursor on by one. Once the usable frames are spent, every call
    /// returns `None`.
    pub fn allocate_frame(&mut self) -> (r: Option<u64>)
        requires
            old(self).wf(),
        ensures
            final(self).wf(),
            final(self).regions() == old(self).regions(),
            r is Some <==> old(self).cursor() < usable_frames(old(self).regions()).len()
                && old(self).cursor() < usize::MAX,
            r is Some ==> r->0 == usable_frames(old(self).regions())[old(self).cursor() as int],
            r is Some ==> r->0 % FRAME_SIZE == 0,
            final(self).cursor() == if old(self).cursor() < usize::MAX {
                old(self).cursor() + 1 as int
            } else {
                old(self).cursor() as int
            },
    {
        if self.next == usize::MAX {
            return None;
        }
        let frame = self.usable_frame(self.next);
        proof {
            if frame is Some {
                lemma_frame_in_usable_region(self.memory_regions@, self.next as int);
            }
        }
        self.next = self.next + 1;
        frame
    }

    /// Takes a frame back. Frames are never reused: nothing changes.
    pub fn deallocate_frame(&mut self, frame: u64)
        ensures
            *final(self) == *old(self),
    {
    }
}

} // verus!
