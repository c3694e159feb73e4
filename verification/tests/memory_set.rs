use rucore::memory::address::PAddr;
use rucore::memory::memory_set::{MemoryArea, MemorySet, ProgramSegment};
use rucore::paging::entry::EntryFlags;
use rucore::paging::table::MapError;

#[test]
fn push_and_find() {
    let mut ms = MemorySet::new();
    let _ = ms.push(MemoryArea::new(0x0, 0x8, EntryFlags::from_bits_truncate(0x0), "code"));
    let _ = ms.push(MemoryArea::new(0x8, 0x10, EntryFlags::from_bits_truncate(0x1), "data"));
    assert_eq!(ms.find_area(0x6).unwrap().name, "code");
    assert_eq!(ms.find_area(0x11), None);
}

#[test]
fn push_overlap() {
    let mut ms = MemorySet::new();
    assert_eq!(ms.push(MemoryArea::new(0x0, 0x8, EntryFlags::from_bits_truncate(0x0), "code")), Ok(()));
    assert_eq!(
        ms.push(MemoryArea::new(0x4, 0x10, EntryFlags::from_bits_truncate(0x1), "data")),
        Err(MapError::RangeInUse)
    );
    assert_eq!(ms.len(), 1);
}

#[test]
fn areas_overlap_by_pages() {
    let area = |start: u64, end: u64| MemoryArea::new(start, end, EntryFlags::from_bits_truncate(0), "");
    assert!(area(0x1000, 0x3000).is_overlap_with(&area(0x2fff, 0x4000)));
    assert!(!area(0x1000, 0x3000).is_overlap_with(&area(0x3000, 0x4000)));
    assert!(!area(0x3000, 0x4000).is_overlap_with(&area(0x1000, 0x3000)));
    // Two areas in one page overlap though they share no byte.
    assert!(area(0x1000, 0x1800).is_overlap_with(&area(0x1800, 0x2000)));
    assert!(area(0x1000, 0x1001).is_overlap_with(&area(0x1fff, 0x2000)));
    assert!(!area(0, 0).is_overlap_with(&area(0, 0x1000)));
    assert!(area(0x1000, 0x3000).contains(0x1000));
    assert!(area(0x1000, 0x3000).contains(0x2fff));
    assert!(!area(0x1000, 0x3000).contains(0x3000));
    assert!(!area(0x1000, 0x3000).contains(0xfff));
}

#[test]
fn pushed_areas_never_share_a_page() {
    let mut ms = MemorySet::new();
    let mut step: u64 = 7;
    let mut pushed = 0;
    for _ in 0..200 {
        step = step.wrapping_mul(6364136223846793005).wrapping_add(1442695040888963407);
        let start = (step >> 40) % 0x40000;
        let length = (step >> 20) % 0x3000 + 1;
        let area = MemoryArea::new(start, start + length, EntryFlags::from_bits_truncate(0), "area");
        let overlaps = ms.iter().iter().any(|other| area.is_overlap_with(other));
        assert_eq!(ms.push(area).is_err(), overlaps);
        if !overlaps {
            pushed += 1;
        }
    }
    assert_eq!(ms.len(), pushed);
    let areas = ms.iter();
    for (i, a) in areas.iter().enumerate() {
        for (j, b) in areas.iter().enumerate() {
            if i != j {
                let last_a = (a.end_addr - 1) / 4096;
                let last_b = (b.end_addr - 1) / 4096;
                assert!(last_a < b.start_addr / 4096 || last_b < a.start_addr / 4096);
            }
        }
    }
}

#[test]
fn identity_and_kernel_areas() {
    let flags = EntryFlags::from_bits_truncate(2);
    assert_eq!(MemoryArea::new(1, 2, flags, "a").phys_start_addr, None);
    assert_eq!(MemoryArea::new_identity(0xb8000, 0xb9000, flags, "vga").phys_start_addr, Some(PAddr(0xb8000)));
    assert_eq!(
        MemoryArea::new_kernel(0xffff_ff00_0010_0000, 0xffff_ff00_0020_0000, flags, "kernel").phys_start_addr,
        Some(PAddr(0x10_0000))
    );
    assert_eq!(PAddr(0x1000).to_kernel_virtual(), 0xffff_ff00_0000_1000);
    assert_eq!(PAddr(0x1000).to_identity_virtual(), 0x1000);
    assert_eq!(PAddr::from_kernel_virtual(0xffff_ff00_0000_1000), PAddr(0x1000));
    assert_eq!(PAddr(77).get(), 77);
}

#[test]
fn areas_touch_pages_in_part() {
    let area = MemoryArea::new(0x1800, 0x3001, EntryFlags::empty(), "data");
    assert!(!area.touches_page(0));
    assert!(area.touches_page(1));
    assert!(area.touches_page(2));
    assert!(area.touches_page(3));
    assert!(!area.touches_page(4));
    let empty = MemoryArea::new(0x2000, 0x2000, EntryFlags::empty(), "empty");
    assert!(!empty.touches_page(2));
}

#[test]
fn segments_must_end_at_an_address() {
    let segment = |virtual_addr: u64, mem_size: u64| ProgramSegment {
        virtual_addr,
        mem_size,
        offset: 0,
        file_size: 0,
        writable: true,
        executable: false,
    };
    assert!(segment(0x40_0000, 0x2000).is_fitting());
    assert!(segment(u64::MAX, 0).is_fitting());
    assert!(segment(u64::MAX - 0x1000, 0x1000).is_fitting());
    assert!(!segment(u64::MAX - 0x1000, 0x1001).is_fitting());
    let area = segment(0x40_0000, 0x2000).to_area();
    assert_eq!((area.start_addr, area.end_addr), (0x40_0000, 0x40_2000));
}
