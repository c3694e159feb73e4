use rucore::memory::bump_allocator::{BumpAllocator, PhysicalArea};
use rucore::memory::frame::{Frame, FrameAllocator};
use rucore::memory::memory_set::{MemoryArea, MemorySet};
use rucore::memory::recycle_allocator::RecycleAllocator;
use rucore::memory::{make_page_table, page_fault_handler, KernelFrameAllocator};
use rucore::paging::entry::{
    Entry, EntryFlags, GLOBAL, HUGE_PAGE, NO_EXECUTE, PRESENT, USER_ACCESSIBLE, WRITABLE,
};
use rucore::paging::mapper::{Mapper, MapperFlush, MapperFlushAll};
use rucore::paging::table::{Level1, Level4, MapError, Table, TableLevel};
use rucore::paging::temporary_page::TinyAllocator;
use rucore::paging::{ActivePageTable, HardwareOp, InactivePageTable, Page, TemporaryPage};
use rucore::memory::address::PAddr;

/// Frames 16..=1039.
fn allocator() -> KernelFrameAllocator {
    RecycleAllocator::new(BumpAllocator::new(
        0,
        0,
        0,
        0,
        vec![PhysicalArea::new(0x10000, 0x400000).unwrap()],
    ))
}

fn flags(bits: u64) -> EntryFlags {
    EntryFlags::from_bits(bits).unwrap()
}

fn active(allocator: &mut KernelFrameAllocator) -> ActivePageTable {
    let frame = allocator.allocate_frames(1).unwrap();
    let mut p4 = Table::new(4);
    p4.set_recursive_entry(frame.clone());
    ActivePageTable::new(p4, frame)
}

#[test]
fn page_of_address() {
    assert_eq!(Page::containing_address(0).number, 0);
    assert_eq!(Page::containing_address(0x1fff).number, 1);
    assert_eq!(Page::containing_address(0xcafebabe).number, 0xcafeb);
    assert_eq!(Page::containing_address(0xffff_ff00_0000_0000).number, 0x000f_ffff_f000_0000);
    assert_eq!(Page::containing_address(0xcafebabe).start_address(), 0xcafeb000);
    assert_eq!(
        Page::containing_address(0xffff_ffff_ffff_ffff).start_address(),
        0xffff_ffff_ffff_f000
    );
}

#[test]
fn page_indices() {
    // entry 42 of the third-level table
    let page = Page::containing_address(42 * 512 * 512 * 4096);
    assert_eq!((page.p4_index(), page.p3_index(), page.p2_index(), page.p1_index()), (0, 42, 0, 0));
    let page = Page::containing_address(0xffff_ff00_0020_3000);
    assert_eq!((page.p4_index(), page.p3_index(), page.p2_index(), page.p1_index()), (510, 0, 1, 3));
    let page = Page::containing_address(0xffff_ffff_ffff_f000);
    assert_eq!(
        (page.p4_index(), page.p3_index(), page.p2_index(), page.p1_index()),
        (511, 511, 511, 511)
    );
    let page = Page::containing_address(0x0000_7fff_ffff_f000);
    assert_eq!(
        (page.p4_index(), page.p3_index(), page.p2_index(), page.p1_index()),
        (255, 511, 511, 511)
    );
}

#[test]
fn page_ranges() {
    let mut iter = Page::range_inclusive(Page { number: 7 }, Page { number: 8 });
    assert_eq!(iter.next(), Some(Page { number: 7 }));
    assert_eq!(iter.next(), Some(Page { number: 8 }));
    assert_eq!(iter.next(), None);
    let mut iter = Page::range_of(0x1800, 0x3001);
    assert_eq!(iter.next(), Some(Page { number: 1 }));
    assert_eq!(iter.next(), Some(Page { number: 2 }));
    assert_eq!(iter.next(), Some(Page { number: 3 }));
    assert_eq!(iter.next(), None);
    let mut empty = Page::range_of(0x2000, 0x2000);
    assert_eq!(empty.next(), None);
}

#[test]
fn entry_flags() {
    assert_eq!(EntryFlags::empty().bits(), 0);
    assert_eq!(EntryFlags::from_bits(PRESENT | WRITABLE).unwrap().bits(), 3);
    assert_eq!(EntryFlags::from_bits(1 << 9), None);
    assert_eq!(EntryFlags::from_bits_truncate((1 << 9) | PRESENT | NO_EXECUTE).bits(), PRESENT | NO_EXECUTE);
    let rw = flags(PRESENT).union(flags(WRITABLE));
    assert_eq!(rw.bits(), 3);
    assert!(rw.contains(flags(PRESENT)));
    assert!(rw.contains(flags(WRITABLE)));
    assert!(!rw.contains(flags(HUGE_PAGE)));
    assert!(rw.contains(EntryFlags::empty()));
    assert_eq!(EntryFlags::from_segment(false, true).bits(), PRESENT | USER_ACCESSIBLE);
    assert_eq!(EntryFlags::from_segment(true, true).bits(), PRESENT | USER_ACCESSIBLE | WRITABLE);
    assert_eq!(EntryFlags::from_segment(false, false).bits(), PRESENT | USER_ACCESSIBLE | NO_EXECUTE);
    assert_eq!(
        EntryFlags::from_segment(true, false).bits(),
        PRESENT | USER_ACCESSIBLE | WRITABLE | NO_EXECUTE
    );
}

#[test]
fn entry_bits() {
    let mut entry = Entry::zero();
    assert!(entry.is_unused());
    assert_eq!(entry.pointed_frame(), None);
    entry.set_counter_bits(5);
    assert_eq!(entry.0, 5 << 52);
    assert!(entry.is_unused());
    entry.set(Frame { number: 0x1234 }, flags(PRESENT | WRITABLE | NO_EXECUTE));
    assert_eq!(entry.0, 0x8050_0000_0123_4003);
    assert!(!entry.is_unused());
    assert_eq!(entry.counter_bits(), 5);
    assert_eq!(entry.address(), 0x1234000);
    assert_eq!(entry.flags().bits(), PRESENT | WRITABLE | NO_EXECUTE);
    assert_eq!(entry.pointed_frame(), Some(Frame { number: 0x1234 }));
    entry.set(Frame { number: 0x1234 }, flags(WRITABLE));
    assert_eq!(entry.pointed_frame(), None);
    assert!(!entry.is_unused());
    entry.set_counter_bits(0x3ff);
    assert_eq!(entry.counter_bits(), 0x3ff);
    entry.set_unused();
    assert!(entry.is_unused());
    assert_eq!(entry.0, 0x3ff << 52);
    entry.set_zero();
    assert_eq!(entry, Entry(0));
}

#[test]
fn table_counts_its_entries() {
    let mut table = Table::new(1);
    assert!(table.is_unused());
    table.increment_entry_count();
    table.increment_entry_count();
    assert!(!table.is_unused());
    assert_eq!(table.entry(0).counter_bits(), 2);
    table.decrement_entry_count();
    assert_eq!(table.entry(0).counter_bits(), 1);
    assert_eq!(table.get_level(), 1);
    assert_eq!(Level4::number(), 4);
    assert_eq!(Level1::number(), 1);
    assert_eq!(Table::of_level::<Level4>().get_level(), 4);
    assert_eq!(Table::of_next_level::<Level4>().get_level(), 3);
}

#[test]
fn tables_are_created_on_the_way() {
    let mut allocator = allocator();
    let mut table = Table::new(4);
    assert!(table.next_table(3).is_none());
    assert_eq!(table.next_table_create(3, &mut allocator), Ok(()));
    assert_eq!(table.entry(0).counter_bits(), 1);
    assert_eq!(table.entry(3).pointed_frame(), Some(Frame { number: 16 }));
    assert_eq!(table.entry(3).flags().bits(), PRESENT | WRITABLE);
    let child = table.next_table(3).unwrap();
    assert_eq!(child.get_level(), 3);
    assert!(child.is_unused());
    // A table that is there already is left alone.
    assert_eq!(table.next_table_create(3, &mut allocator), Ok(()));
    assert_eq!(table.entry(0).counter_bits(), 1);
    assert_eq!(allocator.allocate_frames(1).unwrap().number, 17);
    // Without frames no table can be created.
    let mut nothing = RecycleAllocator::new(BumpAllocator::new(0, 0, 0, 0, Vec::new()));
    assert_eq!(table.next_table_create(4, &mut nothing), Err(MapError::OutOfMemory));
    assert!(table.next_table(4).is_none());
    table.zero();
    assert!(table.next_table(3).is_none());
    assert!(table.is_unused());
}

#[test]
fn map_translate_unmap() {
    let mut allocator = allocator();
    let mut mapper = Mapper::new(Table::new(4));
    let page = Page::containing_address(42 * 512 * 512 * 4096);
    let other = Page::containing_address(42 * 512 * 512 * 4096 + 4096);
    assert_eq!(mapper.translate_page(page), None);
    let frame = allocator.allocate_frames(1).unwrap();
    assert_eq!(frame.number, 16);
    let flush = mapper.map_to(page, frame.clone(), flags(WRITABLE), &mut allocator).unwrap();
    flush.ignore();
    assert_eq!(mapper.translate_page(page), Some(Frame { number: 16 }));
    assert_eq!(mapper.flags_of(page), Some(flags(PRESENT | WRITABLE)));
    assert_eq!(mapper.translate_page(other), None);
    assert_eq!(mapper.translate(42 * 512 * 512 * 4096 + 0x123), Some(PAddr(0x10123)));
    assert_eq!(mapper.translate(42 * 512 * 512 * 4096 + 0x1123), None);
    // Three tables were created: the next frame is the fourth after the
    // page's.
    assert_eq!(allocator.allocate_frames(1).unwrap().number, 20);
    let flush = mapper.unmap(page, &mut allocator);
    flush.ignore();
    assert_eq!(mapper.translate_page(page), None);
    assert_eq!(mapper.flags_of(page), None);
    // The page's frame and the three tables came back.
    assert_eq!(allocator.free_count(), 4);
    assert!(mapper.p4().is_unused());
}

#[test]
fn mapping_spares_other_pages() {
    let mut allocator = allocator();
    let mut mapper = Mapper::new(Table::new(4));
    let pages: Vec<Page> = vec![
        Page::containing_address(0x1000),
        Page::containing_address(0x2000),
        Page::containing_address(0x20_0000),
        Page::containing_address(0x4000_0000),
        Page::containing_address(0x80_0000_0000),
        Page::containing_address(0xffff_ff00_0000_0000),
    ];
    for (i, page) in pages.iter().enumerate() {
        let frame = Frame { number: 0x500 + i as u64 };
        mapper.map_to(*page, frame, flags(WRITABLE), &mut allocator).unwrap().ignore();
    }
    for (i, page) in pages.iter().enumerate() {
        assert_eq!(mapper.translate_page(*page), Some(Frame { number: 0x500 + i as u64 }));
    }
    let (flush, frame) = mapper.unmap_return(pages[1], false, &mut allocator);
    flush.ignore();
    assert_eq!(frame, Frame { number: 0x501 });
    for (i, page) in pages.iter().enumerate() {
        let expected = if i == 1 { None } else { Some(Frame { number: 0x500 + i as u64 }) };
        assert_eq!(mapper.translate_page(*page), expected);
    }
    // The leaf table still holds the first page: no table was let go.
    assert_eq!(allocator.free_count(), 0);
    mapper.unmap_return(pages[0], false, &mut allocator).0.ignore();
    // Now the leaf table is empty and goes; the tables above hold others.
    assert_eq!(allocator.free_count(), 1);
}

#[test]
fn unmap_can_keep_the_tables() {
    let mut allocator = allocator();
    let mut mapper = Mapper::new(Table::new(4));
    let page = Page::containing_address(0x7000);
    mapper.map_to(page, Frame { number: 0x77 }, flags(0), &mut allocator).unwrap().ignore();
    let (flush, frame) = mapper.unmap_return(page, true, &mut allocator);
    flush.ignore();
    assert_eq!(frame, Frame { number: 0x77 });
    assert_eq!(allocator.free_count(), 0);
    assert!(!mapper.p4().is_unused());
    // The tables are still there: mapping again needs no frame.
    let mut nothing = RecycleAllocator::new(BumpAllocator::new(0, 0, 0, 0, Vec::new()));
    mapper.map_to(page, Frame { number: 0x78 }, flags(0), &mut nothing).unwrap().ignore();
    assert_eq!(mapper.translate_page(page), Some(Frame { number: 0x78 }));
}

#[test]
fn map_fails_without_frames() {
    let mut nothing = RecycleAllocator::new(BumpAllocator::new(0, 0, 0, 0, Vec::new()));
    let mut mapper = Mapper::new(Table::new(4));
    let page = Page::containing_address(0x7000);
    assert!(matches!(
        mapper.map_to(page, Frame { number: 1 }, flags(0), &mut nothing),
        Err(MapError::OutOfMemory)
    ));
    assert!(matches!(mapper.map(page, flags(0), &mut nothing), Err(MapError::OutOfMemory)));
    assert_eq!(mapper.translate_page(page), None);
    // Two frames are enough for two of the three tables only.
    let mut two = RecycleAllocator::new(BumpAllocator::new(
        0,
        0,
        0,
        0,
        vec![PhysicalArea::new(0x1000, 0x2000).unwrap()],
    ));
    assert!(matches!(
        mapper.map_to(page, Frame { number: 9 }, flags(0), &mut two),
        Err(MapError::OutOfMemory)
    ));
    assert_eq!(mapper.translate_page(page), None);
}

#[test]
fn map_allocates_the_frame() {
    let mut allocator = allocator();
    let mut mapper = Mapper::new(Table::new(4));
    let a = Page::containing_address(0x1000);
    let b = Page::containing_address(0x2000);
    mapper.map(a, flags(WRITABLE), &mut allocator).unwrap().ignore();
    mapper.map(b, flags(WRITABLE | GLOBAL), &mut allocator).unwrap().ignore();
    // Frame 16 for the page, 17 to 19 for the tables, 20 for the next page.
    assert_eq!(mapper.translate_page(a), Some(Frame { number: 16 }));
    assert_eq!(mapper.translate_page(b), Some(Frame { number: 20 }));
    assert_eq!(mapper.flags_of(b), Some(flags(PRESENT | WRITABLE | GLOBAL)));
}

#[test]
fn remap_changes_the_flags_only() {
    let mut allocator = allocator();
    let mut mapper = Mapper::new(Table::new(4));
    let page = Page::containing_address(0x5000);
    mapper.map_to(page, Frame { number: 0x99 }, flags(WRITABLE), &mut allocator).unwrap().ignore();
    let flush = mapper.remap(page, flags(NO_EXECUTE));
    flush.ignore();
    assert_eq!(mapper.translate_page(page), Some(Frame { number: 0x99 }));
    assert_eq!(mapper.flags_of(page), Some(flags(PRESENT | NO_EXECUTE)));
}

#[test]
fn identity_map_uses_the_frame_number() {
    let mut allocator = allocator();
    let mut mapper = Mapper::new(Table::new(4));
    let vga = Frame::containing_address(0xb8000);
    mapper.identity_map(vga.clone(), flags(WRITABLE), &mut allocator).unwrap().ignore();
    assert_eq!(mapper.translate(0xb8010), Some(PAddr(0xb8010)));
    mapper.identity_map2(Frame::containing_address(0xfee00000), flags(WRITABLE), &mut allocator).unwrap();
    assert_eq!(mapper.translate(0xfee00123), Some(PAddr(0xfee00123)));
    mapper.map_to2(Page::containing_address(0x3000), Frame { number: 0x42 }, flags(0), &mut allocator).unwrap();
    assert_eq!(mapper.translate_page(Page::containing_address(0x3000)), Some(Frame { number: 0x42 }));
}

#[test]
fn flushes_are_queued() {
    let mut allocator = allocator();
    let mut table = active(&mut allocator);
    let page = Page::containing_address(0x9000);
    let flush = table.mapper.map_to(page, Frame { number: 0x300 }, flags(0), &mut allocator).unwrap();
    assert!(table.take_pending().is_empty());
    flush.flush(&mut table);
    assert_eq!(table.take_pending(), vec![HardwareOp::FlushPage(0x9000)]);
    assert!(table.take_pending().is_empty());
    MapperFlush::new(Page::containing_address(0x5000)).flush(&mut table);
    table.flush_all();
    assert_eq!(table.take_pending(), vec![HardwareOp::FlushPage(0x5000), HardwareOp::FlushAll]);
    // A flush-all that took over no promise does nothing.
    MapperFlushAll::new().flush(&mut table);
    assert!(table.take_pending().is_empty());
    let mut all = MapperFlushAll::new();
    all.consume(table.mapper.remap(page, flags(WRITABLE)));
    all.consume(MapperFlush::new(Page::containing_address(0x5000)));
    all.flush(&mut table);
    assert_eq!(table.take_pending(), vec![HardwareOp::FlushAll]);
    MapperFlushAll::new().ignore();
}

#[test]
fn tiny_allocator_holds_three_frames() {
    let mut allocator = allocator();
    let mut tiny = TinyAllocator::new(&mut allocator);
    assert_eq!(allocator.allocate_frames(1).unwrap().number, 19);
    assert_eq!(tiny.allocate_frames(2), None);
    assert_eq!(tiny.allocate_frames(1), Some(Frame { number: 16 }));
    assert_eq!(tiny.allocate_frames(1), Some(Frame { number: 17 }));
    tiny.deallocate_frames(Frame { number: 99 }, 1);
    assert_eq!(tiny.allocate_frames(1), Some(Frame { number: 99 }));
    assert_eq!(tiny.allocate_frames(1), Some(Frame { number: 18 }));
    assert_eq!(tiny.allocate_frames(1), None);
    assert_eq!(tiny.free_frames(), 0);
    assert_eq!(tiny.used_frames(), 0);
    for number in 1..=4 {
        tiny.deallocate_frames(Frame { number }, 1);
    }
    // The fourth frame found no slot.
    assert_eq!(tiny.allocate_frames(1), Some(Frame { number: 1 }));
    assert_eq!(tiny.allocate_frames(1), Some(Frame { number: 2 }));
    assert_eq!(tiny.allocate_frames(1), Some(Frame { number: 3 }));
    assert_eq!(tiny.allocate_frames(1), None);
}

#[test]
fn temporary_page_maps_and_unmaps() {
    let mut allocator = allocator();
    let mut table = active(&mut allocator);
    let page = Page::containing_address(0xcafebabe);
    let mut temporary = TemporaryPage::new(page, &mut allocator);
    assert_eq!(temporary.start_address(), 0xcafeb000);
    assert_eq!(temporary.map(Frame { number: 0x400 }, &mut table), Ok(0xcafeb000));
    assert_eq!(table.mapper.translate_page(page), Some(Frame { number: 0x400 }));
    assert_eq!(table.mapper.flags_of(page), Some(flags(PRESENT | WRITABLE)));
    assert_eq!(table.take_pending(), vec![HardwareOp::FlushPage(0xcafeb000)]);
    temporary.unmap(&mut table);
    assert_eq!(table.mapper.translate_page(page), None);
    assert_eq!(table.take_pending(), vec![HardwareOp::FlushPage(0xcafeb000)]);
    // The tables were kept: the page can be mapped again though the
    // allocator of the page is empty by now.
    assert_eq!(temporary.map(Frame { number: 0x401 }, &mut table), Ok(0xcafeb000));
    temporary.unmap(&mut table);
    // A second temporary page in another part of the address space finds
    // no frames.
    let mut nothing = RecycleAllocator::new(BumpAllocator::new(0, 0, 0, 0, Vec::new()));
    let mut poor = TemporaryPage::new(Page::containing_address(0x80_0000_0000), &mut nothing);
    assert_eq!(poor.map(Frame { number: 0x402 }, &mut table), Err(MapError::OutOfMemory));
}

#[test]
fn inactive_table_is_empty_and_recursive() {
    let mut allocator = allocator();
    let mut table = active(&mut allocator);
    let mut temporary = TemporaryPage::new(Page::containing_address(0xcafebabe), &mut allocator);
    let frame = allocator.allocate_frames(1).unwrap();
    let inactive = InactivePageTable::new(frame.clone(), &mut table, &mut temporary).unwrap();
    assert_eq!(inactive.p4_frame, frame);
    assert_eq!(inactive.table.entry(511).pointed_frame(), Some(frame));
    assert_eq!(inactive.table.entry(511).flags().bits(), PRESENT | WRITABLE);
    assert!(inactive.table.is_unused());
    assert_eq!(table.mapper.translate_page(Page::containing_address(0xcafebabe)), None);
    assert_eq!(
        table.take_pending(),
        vec![HardwareOp::FlushPage(0xcafeb000), HardwareOp::FlushPage(0xcafeb000)]
    );
}

#[test]
fn inactive_table_is_edited_through_the_active_one() {
    let mut allocator = allocator();
    let mut table = active(&mut allocator);
    let root = table.address();
    let kept = Page::containing_address(0x1000);
    table.mapper.map_to(kept, Frame { number: 0x200 }, flags(WRITABLE), &mut allocator).unwrap().flush(&mut table);
    let mut temporary = TemporaryPage::new(Page::containing_address(0xcafebabe), &mut allocator);
    let frame = allocator.allocate_frames(1).unwrap();
    let mut inactive = InactivePageTable::new(frame.clone(), &mut table, &mut temporary).unwrap();
    table.take_pending();

    assert_eq!(table.with_start(&mut inactive, &mut temporary), Ok(()));
    // The mapper edits the other table now.
    assert_eq!(table.mapper.translate_page(kept), None);
    let page = Page::containing_address(0x8000);
    table.mapper.map_to(page, Frame { number: 0x201 }, flags(0), &mut allocator).unwrap().ignore();
    // The loaded table points to the other one by its recursive slot, and
    // shows its own top-level table at the temporary page.
    assert_eq!(inactive.table.entry(511).pointed_frame(), Some(frame.clone()));
    table.with_finish(&mut inactive, &mut temporary);

    assert_eq!(table.address(), root);
    assert_eq!(table.mapper.translate_page(kept), Some(Frame { number: 0x200 }));
    assert_eq!(table.mapper.translate_page(page), None);
    assert_eq!(table.mapper.translate_page(Page::containing_address(0xcafebabe)), None);
    assert_eq!(table.mapper.p4().entry(511).pointed_frame(), Some(Frame { number: root / 4096 }));
    assert_eq!(
        table.take_pending(),
        vec![
            HardwareOp::FlushPage(0xcafeb000),
            HardwareOp::FlushAll,
            HardwareOp::FlushAll,
            HardwareOp::FlushPage(0xcafeb000),
        ]
    );
    let edited = Mapper::new(inactive.table);
    assert_eq!(edited.translate_page(page), Some(Frame { number: 0x201 }));
    assert_eq!(edited.translate_page(kept), None);
}

#[test]
fn switch_hands_the_old_table_back() {
    let mut allocator = allocator();
    let mut table = active(&mut allocator);
    let old_root = table.address();
    let kept = Page::containing_address(0x1000);
    table.mapper.map_to(kept, Frame { number: 0x200 }, flags(0), &mut allocator).unwrap().ignore();
    let mut temporary = TemporaryPage::new(Page::containing_address(0xcafebabe), &mut allocator);
    let frame = allocator.allocate_frames(1).unwrap();
    let inactive = InactivePageTable::new(frame.clone(), &mut table, &mut temporary).unwrap();
    table.take_pending();
    let previous = table.switch(inactive);
    assert_eq!(table.address(), frame.number * 4096);
    assert_eq!(previous.p4_frame.number * 4096, old_root);
    assert_eq!(table.mapper.translate_page(kept), None);
    assert_eq!(table.take_pending(), vec![HardwareOp::LoadRoot(PAddr(frame.number * 4096))]);
    let back = table.switch(previous);
    assert_eq!(back.p4_frame, frame);
    assert_eq!(table.mapper.translate_page(kept), Some(Frame { number: 0x200 }));
}

fn code_and_data() -> MemorySet {
    let mut set = MemorySet::new();
    set.push(MemoryArea::new(0x1000, 0x3000, flags(PRESENT | USER_ACCESSIBLE), "code")).unwrap();
    set.push(MemoryArea::new(0x3000, 0x5000, flags(WRITABLE | NO_EXECUTE | USER_ACCESSIBLE), "data"))
        .unwrap();
    set
}

#[test]
fn memory_set_is_materialized() {
    let mut allocator = allocator();
    let mut table = active(&mut allocator);
    let mut temporary = TemporaryPage::new(Page::containing_address(0xcafebabe), &mut allocator);
    let frame = allocator.allocate_frames(1).unwrap();
    let mut inactive = InactivePageTable::new(frame, &mut table, &mut temporary).unwrap();
    let set = code_and_data();
    table.with_start(&mut inactive, &mut temporary).unwrap();
    assert_eq!(set.map(&mut table.mapper, &mut allocator), Ok(()));
    table.with_finish(&mut inactive, &mut temporary);

    let mapper = Mapper::new(inactive.table);
    let code = mapper.translate_page(Page::containing_address(0x2000)).unwrap();
    let data = mapper.translate_page(Page::containing_address(0x4000)).unwrap();
    assert_ne!(code, data);
    for address in [0x2000u64, 0x4000] {
        let page = Page::containing_address(address);
        assert!(!mapper.flags_of(page).unwrap().contains(flags(HUGE_PAGE)));
    }
    assert_eq!(mapper.flags_of(Page::containing_address(0x2000)), Some(flags(PRESENT | USER_ACCESSIBLE)));
    assert_eq!(
        mapper.flags_of(Page::containing_address(0x4000)),
        Some(flags(PRESENT | WRITABLE | NO_EXECUTE | USER_ACCESSIBLE))
    );
    // The four pages lie on four frames, and nothing else is mapped.
    let mut frames: Vec<u64> = (1..5u64)
        .map(|n| mapper.translate_page(Page { number: n }).unwrap().number)
        .collect();
    frames.sort();
    frames.dedup();
    assert_eq!(frames.len(), 4);
    assert_eq!(mapper.translate_page(Page { number: 0 }), None);
    assert_eq!(mapper.translate_page(Page { number: 5 }), None);
    // The loaded table knows nothing of it.
    assert_eq!(table.mapper.translate_page(Page::containing_address(0x2000)), None);
}

#[test]
fn memory_set_is_unmapped_again() {
    let mut allocator = allocator();
    let mut mapper = Mapper::new(Table::new(4));
    let set = code_and_data();
    let other = Page::containing_address(0x9000);
    mapper.map_to(other, Frame { number: 0x300 }, flags(0), &mut allocator).unwrap().ignore();
    set.map(&mut mapper, &mut allocator).unwrap();
    set.unmap(&mut mapper, &mut allocator);
    for n in 1..5u64 {
        assert_eq!(mapper.translate_page(Page { number: n }), None);
    }
    assert_eq!(mapper.translate_page(other), Some(Frame { number: 0x300 }));
    assert_eq!(allocator.free_count(), 4);
}

#[test]
fn memory_set_with_fixed_frames() {
    let mut allocator = allocator();
    let mut mapper = Mapper::new(Table::new(4));
    let mut set = MemorySet::new();
    set.push(MemoryArea::new_identity(0xb8000, 0xba000, flags(WRITABLE), "vga")).unwrap();
    set.push(MemoryArea::new_kernel(
        0xffff_ff00_0010_0000,
        0xffff_ff00_0010_3000,
        flags(GLOBAL),
        "kernel",
    ))
    .unwrap();
    assert!(set.iter().iter().all(|area| area.is_mappable()));
    set.map(&mut mapper, &mut allocator).unwrap();
    assert_eq!(mapper.translate(0xb8123), Some(PAddr(0xb8123)));
    assert_eq!(mapper.translate(0xb9fff), Some(PAddr(0xb9fff)));
    assert_eq!(mapper.translate(0xba000), None);
    assert_eq!(mapper.translate(0xffff_ff00_0010_2345), Some(PAddr(0x10_2345)));
    assert_eq!(mapper.translate(0xffff_ff00_0010_3000), None);
}

#[test]
fn memory_set_map_runs_out_of_frames() {
    // One frame for the first page, three for its tables: the second page
    // finds none.
    let mut four = RecycleAllocator::new(BumpAllocator::new(
        0,
        0,
        0,
        0,
        vec![PhysicalArea::new(0x1000, 0x4000).unwrap()],
    ));
    let mut mapper = Mapper::new(Table::new(4));
    let set = code_and_data();
    assert_eq!(set.map(&mut mapper, &mut four), Err(MapError::OutOfMemory));
    assert_eq!(mapper.translate_page(Page { number: 0 }), None);
    assert_eq!(mapper.translate_page(Page { number: 5 }), None);
}

#[test]
fn address_space_takes_over_kernel_and_interrupt_controller() {
    let mut allocator = allocator();
    let mut table = active(&mut allocator);
    let kernel = Page::containing_address(0xffff_ff00_0010_0000);
    let heap = Page::containing_address(0xffff_fe80_0000_0000);
    let user = Page::containing_address(0x8000_0000);
    table.mapper.map_to(kernel, Frame { number: 0x100 }, flags(GLOBAL), &mut allocator).unwrap().ignore();
    table.mapper.map_to(heap, Frame { number: 0x900 }, flags(WRITABLE), &mut allocator).unwrap().ignore();
    table.mapper.map_to(user, Frame { number: 0x901 }, flags(WRITABLE), &mut allocator).unwrap().ignore();
    table.take_pending();
    let set = code_and_data();
    let built = make_page_table(&set, &mut table, &mut allocator).unwrap();
    let pending = table.take_pending();
    assert_eq!(pending.last(), Some(&HardwareOp::FlushAll));
    assert!(!pending.iter().any(|op| matches!(op, HardwareOp::LoadRoot(_))));

    assert_eq!(built.table.entry(511).pointed_frame(), Some(built.p4_frame.clone()));
    let mapper = Mapper::new(built.table);
    assert_eq!(mapper.translate_page(kernel), Some(Frame { number: 0x100 }));
    assert_eq!(mapper.flags_of(kernel), Some(flags(PRESENT | GLOBAL)));
    assert_eq!(mapper.translate_page(heap), Some(Frame { number: 0x900 }));
    assert_eq!(mapper.translate_page(user), None);
    assert_eq!(mapper.translate(0xfee00010), Some(PAddr(0xfee00010)));
    assert_eq!(mapper.flags_of(Page::containing_address(0xfee00000)), Some(flags(PRESENT | WRITABLE)));
    assert!(mapper.translate_page(Page::containing_address(0x2000)).is_some());
    assert!(mapper.translate_page(Page::containing_address(0x4000)).is_some());
    assert_eq!(mapper.translate_page(Page::containing_address(0xcafebabe)), None);
    // The loaded table is as it was.
    assert_eq!(table.mapper.translate_page(kernel), Some(Frame { number: 0x100 }));
    assert_eq!(table.mapper.translate_page(user), Some(Frame { number: 0x901 }));
    assert_eq!(table.mapper.translate_page(Page::containing_address(0x2000)), None);
    assert_eq!(table.mapper.translate_page(Page::containing_address(0xcafebabe)), None);
}

#[test]
fn address_space_needs_frames() {
    let mut allocator = allocator();
    let mut table = active(&mut allocator);
    let mut nothing = RecycleAllocator::new(BumpAllocator::new(0, 0, 0, 0, Vec::new()));
    let set = code_and_data();
    assert!(matches!(make_page_table(&set, &mut table, &mut nothing), Err(MapError::OutOfMemory)));
    assert_eq!(table.mapper.translate_page(Page::containing_address(0x2000)), None);
}

#[test]
fn duplicate_maps_the_same() {
    let mut allocator = allocator();
    let mut mapper = Mapper::new(Table::new(4));
    let page = Page::containing_address(0xffff_ff00_0000_5000);
    mapper.map_to(page, Frame { number: 0x55 }, flags(WRITABLE), &mut allocator).unwrap().ignore();
    let copy = Mapper::new(mapper.p4().duplicate());
    assert_eq!(copy.translate_page(page), Some(Frame { number: 0x55 }));
    let mut other = Mapper::new(Table::new(4));
    other.map_to(Page::containing_address(0x1000), Frame { number: 1 }, flags(0), &mut allocator).unwrap().ignore();
    other.share_entry(510, mapper.p4());
    assert_eq!(other.translate_page(page), Some(Frame { number: 0x55 }));
    assert_eq!(other.translate_page(Page::containing_address(0x1000)), Some(Frame { number: 1 }));
    // Sharing an entry that is not in use takes what was there away.
    other.share_entry(0, mapper.p4());
    assert_eq!(other.translate_page(Page::containing_address(0x1000)), None);
}

#[test]
fn page_faults_are_not_handled() {
    assert!(!page_fault_handler(0xdead_beef));
}

#[test]
fn counter_goes_up_and_down_bit_for_bit() {
    let mut allocator = allocator();
    let mut table = Table::new(4);
    table.next_table_create(3, &mut allocator).unwrap();
    let first = table.entry(0);
    table.increment_entry_count();
    assert_ne!(table.entry(0), first);
    table.decrement_entry_count();
    assert_eq!(table.entry(0), first);
    assert_eq!(table.entry(0).counter_bits(), 1);
}

#[test]
fn unmap_gives_the_emptied_tables_back() {
    let mut allocator = allocator();
    let mut mapper = Mapper::new(Table::new(4));
    let page = Page::containing_address(0x7000);
    let neighbour = Page::containing_address(0x8000);
    // The tables of the walk lie in the frames 16, 17 and 18, from the top.
    mapper.map_to(page, Frame { number: 0x77 }, flags(0), &mut allocator).unwrap().ignore();
    mapper.map_to(neighbour, Frame { number: 0x78 }, flags(0), &mut allocator).unwrap().ignore();
    assert_eq!(allocator.allocate_frames(1).unwrap().number, 19);

    // The leaf table keeps a live entry: only the frame of the page goes.
    mapper.unmap(page, &mut allocator).ignore();
    assert_eq!(allocator.free_count(), 1);
    assert_eq!(allocator.allocate_frames(1).unwrap().number, 0x77);
    assert_eq!(mapper.translate_page(neighbour), Some(Frame { number: 0x78 }));
    let mut nothing = RecycleAllocator::new(BumpAllocator::new(0, 0, 0, 0, Vec::new()));
    mapper.map_to(page, Frame { number: 0x79 }, flags(0), &mut nothing).unwrap().ignore();
    mapper.unmap(page, &mut allocator).ignore();
    assert_eq!(allocator.allocate_frames(1).unwrap().number, 0x79);

    // The last page of the leaf table takes the tables with it: they are
    // given back from the lowest up, and the frame of the page at the end.
    mapper.unmap(neighbour, &mut allocator).ignore();
    assert_eq!(allocator.free_count(), 4);
    assert_eq!(allocator.allocate_frames(1).unwrap().number, 0x78);
    assert_eq!(allocator.allocate_frames(1).unwrap().number, 16);
    assert_eq!(allocator.allocate_frames(1).unwrap().number, 17);
    assert_eq!(allocator.allocate_frames(1).unwrap().number, 18);
    assert!(mapper.p4().is_unused());
    assert!(matches!(
        mapper.map_to(page, Frame { number: 0x77 }, flags(0), &mut nothing),
        Err(MapError::OutOfMemory)
    ));
}

#[test]
fn areas_with_fixed_frames_need_no_frame_where_the_tables_are() {
    let mut allocator = allocator();
    let mut mapper = Mapper::new(Table::new(4));
    mapper.map_to(Page::containing_address(0x7000), Frame { number: 0x77 }, flags(0), &mut allocator).unwrap().ignore();
    let mut set = MemorySet::new();
    set.push(MemoryArea::new_identity(0x9000, 0xb000, flags(WRITABLE), "fixed")).unwrap();
    let mut nothing = RecycleAllocator::new(BumpAllocator::new(0, 0, 0, 0, Vec::new()));
    assert_eq!(set.map(&mut mapper, &mut nothing), Ok(()));
    assert_eq!(mapper.translate_page(Page::containing_address(0xa000)), Some(Frame { number: 0xa }));
    // an area that needs frames of its own fails without them
    let mut own = MemorySet::new();
    own.push(MemoryArea::new(0xc000, 0xd000, flags(WRITABLE), "own")).unwrap();
    assert_eq!(own.map(&mut mapper, &mut nothing), Err(MapError::OutOfMemory));
}
