use aaos::memory::{FrameAllocator, MemoryRegion, FRAME_SIZE};
use aaos::paging::{AddressSpace, MapError, NO_EXECUTE, PRESENT, WRITABLE};

fn boot_map() -> Vec<MemoryRegion> {
    vec![
        MemoryRegion { start: 0x0, end: 0x1000, usable: false },
        MemoryRegion { start: 0x1800, end: 0x5000, usable: true },
        MemoryRegion { start: 0x5000, end: 0x8000, usable: false },
        MemoryRegion { start: 0x8000, end: 0xa000, usable: true },
    ]
}

fn in_usable_region(map: &[MemoryRegion], f: u64) -> bool {
    map.iter().any(|r| r.usable && r.start <= f && f + FRAME_SIZE <= r.end)
}

#[test]
fn frames_come_in_order_then_run_out() {
    let mut fa = FrameAllocator::init(boot_map());
    let mut got = Vec::new();
    while let Some(f) = fa.allocate_frame() {
        got.push(f);
    }
    assert_eq!(got, vec![0x2000, 0x3000, 0x4000, 0x8000, 0x9000]);
    assert_eq!(fa.allocate_frame(), None);
}

#[test]
fn frames_are_distinct_aligned_and_usable() {
    let map = boot_map();
    let mut fa = FrameAllocator::init(map.clone());
    let mut got: Vec<u64> = Vec::new();
    while let Some(f) = fa.allocate_frame() {
        assert_eq!(f % FRAME_SIZE, 0);
        assert!(in_usable_region(&map, f));
        assert!(!got.contains(&f));
        got.push(f);
    }
}

#[test]
fn unordered_map_still_yields_lowest_frame_first() {
    let map = vec![
        MemoryRegion { start: 0x10000, end: 0x12000, usable: true },
        MemoryRegion { start: 0x3000, end: 0x4000, usable: true },
    ];
    let mut fa = FrameAllocator::init(map);
    assert_eq!(fa.allocate_frame(), Some(0x3000));
    assert_eq!(fa.allocate_frame(), Some(0x10000));
    assert_eq!(fa.allocate_frame(), Some(0x11000));
    assert_eq!(fa.allocate_frame(), None);
}

#[test]
fn region_too_small_for_a_frame_gives_none() {
    let map = vec![MemoryRegion { start: 0x1001, end: 0x2fff, usable: true }];
    let mut fa = FrameAllocator::init(map);
    assert_eq!(fa.allocate_frame(), None);
}

#[test]
fn empty_map_gives_none() {
    let mut fa = FrameAllocator::init(Vec::new());
    assert_eq!(fa.allocate_frame(), None);
}

fn big_map() -> Vec<MemoryRegion> {
    vec![MemoryRegion { start: 0x100000, end: 0x200000, usable: true }]
}

#[test]
fn map_range_backs_every_page_with_a_fresh_frame() {
    let mut fa = FrameAllocator::init(big_map());
    let mut space = AddressSpace::new(0xffff_8000_0000_0000);
    let start: u64 = 0x4444_4444_0000;
    let len: u64 = 16 * 4096;
    assert_eq!(space.map_range(start, len, PRESENT | WRITABLE, &mut fa), Ok(()));
    let mut frames = Vec::new();
    for k in 0..16u64 {
        let pa = space.translate(start + k * 4096 + 12).expect("page mapped");
        assert_eq!(pa % 4096, 12);
        let frame = pa - 12;
        assert!(!frames.contains(&frame));
        frames.push(frame);
    }
    // three intermediate tables and sixteen pages
    assert_eq!(fa.allocate_frame(), Some(0x100000 + 19 * 4096));
    assert_eq!(space.translate(start + 16 * 4096), None);
    assert_eq!(space.translate(start - 1), None);
}

#[test]
fn map_range_covers_partial_pages_at_both_ends() {
    let mut fa = FrameAllocator::init(big_map());
    let mut space = AddressSpace::new(0);
    assert_eq!(space.map_range(0x1000ff0, 0x20, PRESENT | NO_EXECUTE, &mut fa), Ok(()));
    assert!(space.translate(0x1000000).is_some());
    assert!(space.translate(0x1001000).is_some());
    assert!(space.translate(0x1002000).is_none());
}

#[test]
fn map_range_refuses_an_overlap_and_changes_nothing() {
    let mut fa = FrameAllocator::init(big_map());
    let mut space = AddressSpace::new(0);
    assert_eq!(space.map_range(0x200000, 0x2000, WRITABLE, &mut fa), Ok(()));
    let before = space.translate(0x200000);
    assert_eq!(
        space.map_range(0x1ff000, 0x2000, WRITABLE, &mut fa),
        Err(MapError::PageAlreadyMapped)
    );
    assert_eq!(space.translate(0x1ff000), None);
    assert_eq!(space.translate(0x200000), before);
}

#[test]
fn map_range_reports_exhaustion() {
    let map = vec![MemoryRegion { start: 0x1000, end: 0x5000, usable: true }];
    let mut fa = FrameAllocator::init(map);
    let mut space = AddressSpace::new(0);
    assert_eq!(
        space.map_range(0x400000, 0x4000, WRITABLE, &mut fa),
        Err(MapError::FrameAllocationFailed)
    );
    assert_eq!(fa.allocate_frame(), None);
}

#[test]
fn map_page_sets_present_bit_and_table_address_uses_offset() {
    let mut fa = FrameAllocator::init(big_map());
    let mut space = AddressSpace::new(0x1000_0000);
    assert_eq!(space.map_page(0x7000, WRITABLE, &mut fa), Ok(()));
    assert_eq!(space.translate(0x7abc), Some(0x100000 + 3 * 4096 + 0xabc));
    assert_eq!(space.table_address(0x2000), Some(0x1000_2000));
    assert_eq!(AddressSpace::new(u64::MAX).table_address(1), None);
}

#[test]
fn table_frames_follow_the_mapped_path() {
    let mut fa = FrameAllocator::init(big_map());
    let mut space = AddressSpace::new(0);
    let va: u64 = 0x4444_4444_0000;
    assert_eq!(space.table_frame(3, va), None);
    assert_eq!(space.map_page(va, WRITABLE, &mut fa), Ok(()));
    assert_eq!(space.table_frame(3, va), Some(0x100000));
    assert_eq!(space.table_frame(2, va), Some(0x101000));
    assert_eq!(space.table_frame(1, va), Some(0x102000));
    assert_eq!(space.translate(va), Some(0x103000));
}
