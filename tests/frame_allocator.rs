use kernel_core::frame::{KernelFrameAllocator, MemoryRegion, MemoryRegionKind};

fn region(start: u64, end: u64, kind: MemoryRegionKind) -> MemoryRegion {
    MemoryRegion { start, end, kind }
}

fn drain(alloc: &mut KernelFrameAllocator, limit: usize) -> Vec<u64> {
    let mut frames = Vec::new();
    while let Some(f) = alloc.allocate_frame() {
        frames.push(f);
        assert!(frames.len() <= limit, "allocator did not run out");
    }
    frames
}

#[test]
fn skips_reserved_regions() {
    let mut alloc = KernelFrameAllocator::init(vec![
        region(0, 4096, MemoryRegionKind::Usable),
        region(4096, 8192, MemoryRegionKind::Reserved),
        region(8192, 16384, MemoryRegionKind::Usable),
    ]);
    assert_eq!(alloc.allocate_frame(), Some(0x0000));
    assert_eq!(alloc.allocate_frame(), Some(0x2000));
    // The last usable region spans two frames.
    assert_eq!(alloc.allocate_frame(), Some(0x3000));
    assert_eq!(alloc.allocate_frame(), None);
}

#[test]
fn exhaustion_is_sticky() {
    let mut alloc = KernelFrameAllocator::init(vec![region(0x1000, 0x2000, MemoryRegionKind::Usable)]);
    assert_eq!(alloc.allocate_frame(), Some(0x1000));
    for _ in 0..5 {
        assert_eq!(alloc.allocate_frame(), None);
    }
}

#[test]
fn no_regions_gives_no_frames() {
    let mut alloc = KernelFrameAllocator::init(Vec::new());
    assert_eq!(alloc.allocate_frame(), None);
    assert_eq!(alloc.allocate_frame(), None);
}

#[test]
fn frame_count_matches_usable_bytes() {
    let regions = vec![
        region(0x0000, 0x3000, MemoryRegionKind::Usable),
        region(0x3000, 0x8000, MemoryRegionKind::Reserved),
        region(0x10_0000, 0x10_5000, MemoryRegionKind::Usable),
        region(0x20_0000, 0x20_0000, MemoryRegionKind::Usable),
        region(0x30_0000, 0x30_2000, MemoryRegionKind::Other),
        region(0x40_0000, 0x40_1000, MemoryRegionKind::Usable),
    ];
    let usable_bytes: u64 = regions
        .iter()
        .filter(|r| r.kind == MemoryRegionKind::Usable)
        .map(|r| r.end - r.start)
        .sum();
    let mut alloc = KernelFrameAllocator::init(regions.clone());
    let frames = drain(&mut alloc, 100);
    assert_eq!(frames.len() as u64, usable_bytes / 4096);
    assert_eq!(frames.len(), 9);
    for (i, a) in frames.iter().enumerate() {
        for b in &frames[i + 1..] {
            assert!(a + 4096 <= *b || b + 4096 <= *a);
        }
    }
    assert_eq!(alloc.allocate_frame(), None);
}

#[test]
fn frames_are_aligned_and_inside_usable_regions() {
    let regions = vec![
        region(0x8000, 0xa000, MemoryRegionKind::Usable),
        region(0xa000, 0xc000, MemoryRegionKind::Reserved),
        region(0x1_0000, 0x1_3000, MemoryRegionKind::Usable),
    ];
    let mut alloc = KernelFrameAllocator::init(regions.clone());
    let frames = drain(&mut alloc, 100);
    assert_eq!(frames, vec![0x8000, 0x9000, 0x1_0000, 0x1_1000, 0x1_2000]);
    for f in &frames {
        assert_eq!(f % 4096, 0);
        assert!(regions
            .iter()
            .any(|r| r.kind == MemoryRegionKind::Usable && r.start <= *f && *f < r.end));
    }
}

#[test]
fn unaligned_region_start_is_rounded_up() {
    let mut alloc = KernelFrameAllocator::init(vec![region(0x1064, 0x3100, MemoryRegionKind::Usable)]);
    assert_eq!(alloc.allocate_frame(), Some(0x2000));
    assert_eq!(alloc.allocate_frame(), None);
}

#[test]
fn unaligned_region_without_whole_frame_gives_none() {
    let mut alloc = KernelFrameAllocator::init(vec![region(0x1064, 0x2100, MemoryRegionKind::Usable)]);
    assert_eq!(alloc.allocate_frame(), None);
}

#[test]
fn partial_frame_is_not_handed_out() {
    let mut alloc = KernelFrameAllocator::init(vec![region(0, 100, MemoryRegionKind::Usable)]);
    assert_eq!(alloc.allocate_frame(), None);
}

#[test]
fn adjacent_unaligned_regions_give_each_frame_once() {
    let mut alloc = KernelFrameAllocator::init(vec![
        region(0, 0x1100, MemoryRegionKind::Usable),
        region(0x1100, 0x3000, MemoryRegionKind::Usable),
    ]);
    let frames = drain(&mut alloc, 100);
    assert_eq!(frames, vec![0x0000, 0x2000]);
    assert!(frames.windows(2).all(|w| w[0] + 4096 <= w[1]));
}

#[test]
fn deallocated_frames_are_not_reused() {
    let mut alloc = KernelFrameAllocator::init(vec![region(0, 0x2000, MemoryRegionKind::Usable)]);
    let first = alloc.allocate_frame().unwrap();
    alloc.deallocate_frame(first);
    assert_eq!(alloc.allocate_frame(), Some(0x1000));
    alloc.deallocate_frame(0x1000);
    assert_eq!(alloc.allocate_frame(), None);
}
