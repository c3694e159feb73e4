use rucore::memory::bump_allocator::{BumpAllocator, PhysicalArea};
use rucore::memory::frame::{Frame, FrameAllocator};
use rucore::memory::helpers::dma_buffer::{get_phys, DMABuffer};
use rucore::memory::recycle_allocator::RecycleAllocator;
use rucore::memory::virt::{allocate, reserve, ProtectionMode, Reservation};
use rucore::memory::{
    init, init_noncore, init_pat, kernel_extent, kernel_memory_set, map_area, map_heap,
    remap_the_kernel, to_physical, KernelFrameAllocator, KernelSection,
};
use rucore::memory::memory_set::MemoryArea;
use rucore::paging::entry::{EntryFlags, GLOBAL, NO_EXECUTE, PRESENT, WRITABLE};
use rucore::paging::mapper::Mapper;
use rucore::paging::table::{next_table_address, MapError, Table, P4_ADDRESS};
use rucore::paging::{ActivePageTable, HardwareOp, Page};
use rucore::memory::address::PAddr;

fn allocator() -> KernelFrameAllocator {
    RecycleAllocator::new(BumpAllocator::new(
        0,
        0,
        0,
        0,
        vec![PhysicalArea::new(0x100_0000, 0x4000_0000).unwrap()],
    ))
}

fn boot_table() -> ActivePageTable {
    let mut p4 = Table::new(4);
    p4.set_recursive_entry(Frame { number: 1 });
    ActivePageTable::new(p4, Frame { number: 1 })
}

fn flags(bits: u64) -> EntryFlags {
    EntryFlags::from_bits(bits).unwrap()
}

fn sections() -> Vec<KernelSection> {
    vec![
        // .text
        KernelSection {
            start_address: 0xffff_ff00_0010_0000,
            end_address: 0xffff_ff00_0010_2800,
            allocated: true,
            writable: false,
            executable: true,
        },
        // .comment is not loaded
        KernelSection { start_address: 0, end_address: 0x100, allocated: false, writable: false, executable: false },
        // .data, given by its physical addresses
        KernelSection {
            start_address: 0x10_3000,
            end_address: 0x10_4000,
            allocated: true,
            writable: true,
            executable: false,
        },
    ]
}

#[test]
fn section_flags() {
    assert_eq!(EntryFlags::from_elf_section_flags(true, false, true).bits(), PRESENT);
    assert_eq!(EntryFlags::from_elf_section_flags(true, true, false).bits(), PRESENT | WRITABLE | NO_EXECUTE);
    assert_eq!(EntryFlags::from_elf_section_flags(false, false, false).bits(), NO_EXECUTE);
    assert_eq!(EntryFlags::from_elf_section_flags(false, true, true).bits(), WRITABLE);
    assert_eq!(to_physical(0x10_3000), 0x10_3000);
    assert_eq!(to_physical(0xffff_ff00_0010_3000), 0x10_3000);
    assert_eq!(init_pat(), 0x0007_0401_0007_0406);
}

#[test]
fn kernel_areas() {
    assert_eq!(kernel_extent(&sections()), Some((0x10_0000, 0x10_3fff)));
    assert_eq!(kernel_extent(&Vec::new()), None);
    let set = kernel_memory_set(&sections(), 0x9500, 0xa100).unwrap();
    let areas = set.iter();
    assert_eq!(areas.len(), 4);
    assert_eq!(
        (areas[0].start_addr, areas[0].end_addr, areas[0].phys_start_addr, areas[0].flags.bits()),
        (0xffff_ff00_0010_0000, 0xffff_ff00_0010_3000, Some(PAddr(0x10_0000)), PRESENT)
    );
    assert_eq!(
        (areas[1].start_addr, areas[1].end_addr, areas[1].phys_start_addr),
        (0xffff_ff00_0010_3000, 0xffff_ff00_0010_4000, Some(PAddr(0x10_3000)))
    );
    assert_eq!(
        (areas[2].start_addr, areas[2].end_addr, areas[2].phys_start_addr, areas[2].flags.bits(), areas[2].name),
        (0xb8000, 0xb9000, Some(PAddr(0xb8000)), WRITABLE, "vga")
    );
    assert_eq!(
        (areas[3].start_addr, areas[3].end_addr, areas[3].phys_start_addr, areas[3].flags.bits()),
        (0x9000, 0xb000, Some(PAddr(0x9000)), PRESENT)
    );
    // Boot information on the page of the display.
    assert!(matches!(kernel_memory_set(&sections(), 0xb8800, 0xb8900), Err(MapError::RangeInUse)));
    let mut overlapping = sections();
    overlapping[2].start_address = 0x10_2000;
    assert!(matches!(kernel_memory_set(&overlapping, 0x9500, 0xa100), Err(MapError::RangeInUse)));
}

#[test]
fn kernel_is_remapped() {
    let mut frames = allocator();
    let mut table = boot_table();
    let old = Page::containing_address(0x7000);
    table.mapper.map_to(old, Frame { number: 7 }, flags(WRITABLE), &mut frames).unwrap().ignore();
    table.take_pending();
    assert_eq!(remap_the_kernel(&sections(), 0x9500, 0xa100, &mut table, &mut frames), Ok(()));
    assert_ne!(table.address(), 0x1000);
    assert_eq!(table.mapper.p4().entry(511).pointed_frame().unwrap().number * 4096, table.address());
    assert_eq!(table.take_pending().last(), Some(&HardwareOp::LoadRoot(PAddr(table.address()))));
    assert_eq!(table.mapper.translate(0xffff_ff00_0010_0123), Some(PAddr(0x10_0123)));
    assert_eq!(table.mapper.translate(0xffff_ff00_0010_2fff), Some(PAddr(0x10_2fff)));
    assert_eq!(table.mapper.translate(0xffff_ff00_0010_3800), Some(PAddr(0x10_3800)));
    assert_eq!(table.mapper.translate(0xffff_ff00_0010_4000), None);
    assert_eq!(
        table.mapper.flags_of(Page::containing_address(0xffff_ff00_0010_3000)),
        Some(flags(PRESENT | WRITABLE | NO_EXECUTE))
    );
    assert_eq!(table.mapper.translate(0xb8002), Some(PAddr(0xb8002)));
    assert_eq!(table.mapper.translate(0x9500), Some(PAddr(0x9500)));
    assert_eq!(table.mapper.translate(0xa0ff), Some(PAddr(0xa0ff)));
    assert_eq!(table.mapper.translate(0xb000), None);
    // What the old table mapped is gone.
    assert_eq!(table.mapper.translate_page(old), None);
}

#[test]
fn remap_fails_and_leaves_the_table() {
    let mut table = boot_table();
    let mut nothing = RecycleAllocator::new(BumpAllocator::new(0, 0, 0, 0, Vec::new()));
    assert_eq!(
        remap_the_kernel(&sections(), 0x9500, 0xa100, &mut table, &mut nothing),
        Err(MapError::OutOfMemory)
    );
    assert_eq!(table.address(), 0x1000);
    let mut frames = allocator();
    assert_eq!(
        remap_the_kernel(&sections(), 0xb8800, 0xb8900, &mut table, &mut frames),
        Err(MapError::RangeInUse)
    );
    assert_eq!(table.address(), 0x1000);
    assert_eq!(frames.allocate_frames(1).unwrap().number, 0x1000);
}

#[test]
fn memory_is_set_up() {
    let areas = vec![PhysicalArea::new(0, 0x9f000).unwrap(), PhysicalArea::new(0x10_0000, 0x4000_0000).unwrap()];
    let mut memory = init(&sections(), 0x9500, 0xa100, areas, boot_table()).unwrap();
    let table = &mut memory.active_table;
    assert_eq!(table.mapper.translate(0xffff_ff00_0010_0123), Some(PAddr(0x10_0123)));
    assert_eq!(table.mapper.translate(0xb8002), Some(PAddr(0xb8002)));
    // The pages for the kernel stacks lie behind the kernel heap.
    let first = Page::containing_address(0xffff_fe80_0010_0000);
    let last = Page::containing_address(0xffff_fe80_010f_f000);
    assert!(table.mapper.translate_page(first).is_some());
    assert!(table.mapper.translate_page(last).is_some());
    assert_eq!(table.mapper.flags_of(first), Some(flags(PRESENT | WRITABLE)));
    assert_eq!(table.mapper.translate_page(Page::containing_address(0xffff_fe80_0110_0000)), None);
    assert_eq!(table.mapper.translate_page(Page::containing_address(0xffff_fe80_000f_f000)), None);
    assert_eq!(table.pending.last(), Some(&HardwareOp::FlushAll));
    // No frame of the kernel image or of the boot information was used.
    for address in [0xffff_fe80_0010_0000u64, 0xffff_fe80_0050_0000, 0xffff_fe80_010f_f000] {
        let frame = table.mapper.translate_page(Page::containing_address(address)).unwrap().number;
        assert!(!(0x100..=0x103).contains(&frame) && frame != 9 && frame != 10);
    }
    let stacks = memory.stack_allocator.as_mut().unwrap();
    let stack = stacks.alloc_stacks(7).unwrap();
    assert_eq!(stack.bottom(), 0xffff_fe80_0010_1000);
    assert_eq!(stack.top(), 0xffff_fe80_0010_8000);
    assert!(table.mapper.translate_page(Page::containing_address(stack.top() - 8)).is_some());
    let frames = memory.frame_allocator.as_mut().unwrap();
    let next = frames.allocate_frames(1).unwrap();
    assert_eq!(table.mapper.translate_page(Page::containing_address(0x7000_0000)), None);
    assert!(next.number > 0x103 || next.number < 0x100);
    init_noncore(&mut memory.frame_allocator);
    // Without a section that takes up memory there is no kernel.
    assert!(matches!(init(&Vec::new(), 0x9500, 0xa100, Vec::new(), boot_table()), Err(MapError::OutOfMemory)));
}

#[test]
fn heap_is_mapped() {
    let mut frames = allocator();
    let mut table = boot_table();
    assert_eq!(map_heap(&mut table, 0xffff_fe80_0000_0000, 0x10_0000, &mut frames), Ok(()));
    assert_eq!(table.take_pending(), vec![HardwareOp::FlushAll]);
    let first = Page::containing_address(0xffff_fe80_0000_0000);
    let last = Page::containing_address(0xffff_fe80_000f_ffff);
    assert_eq!(table.mapper.flags_of(first), Some(flags(PRESENT | GLOBAL | WRITABLE | NO_EXECUTE)));
    assert!(table.mapper.translate_page(last).is_some());
    assert_eq!(table.mapper.translate_page(Page::containing_address(0xffff_fe80_0010_0000)), None);
    let area = MemoryArea::new(0x5000, 0x6001, flags(WRITABLE), "two pages");
    assert_eq!(map_area(&mut table, area, &mut frames), Ok(()));
    assert!(table.mapper.translate_page(Page { number: 5 }).is_some());
    assert!(table.mapper.translate_page(Page { number: 6 }).is_some());
    assert_eq!(table.mapper.translate_page(Page { number: 7 }), None);
    let mut nothing = RecycleAllocator::new(BumpAllocator::new(0, 0, 0, 0, Vec::new()));
    let other = MemoryArea::new(0x80_0000_0000, 0x80_0000_1000, flags(WRITABLE), "far");
    assert_eq!(map_area(&mut table, other, &mut nothing), Err(MapError::OutOfMemory));
}

#[test]
fn tables_are_shown_by_the_recursive_mapping() {
    let table = flags(PRESENT | WRITABLE);
    assert_eq!(P4_ADDRESS, 0xffff_ffff_ffff_f000);
    assert_eq!(next_table_address(P4_ADDRESS, 0, table), Some(0xffff_ffff_ffe0_0000));
    assert_eq!(next_table_address(P4_ADDRESS, 511, table), Some(0xffff_ffff_ffff_f000));
    assert_eq!(next_table_address(P4_ADDRESS, 42, table), Some(0xffff_ffff_ffe2_a000));
    assert_eq!(next_table_address(0xffff_ffff_ffe2_a000, 3, table), Some(0xffff_ffff_c540_3000));
    assert_eq!(next_table_address(P4_ADDRESS, 0, flags(WRITABLE)), None);
    assert_eq!(next_table_address(P4_ADDRESS, 0, flags(PRESENT | 0x80)), None);
    let page = Page::containing_address(0xffff_ffff_ffe2_a000);
    assert_eq!((page.p4_index(), page.p3_index(), page.p2_index(), page.p1_index()), (511, 511, 511, 42));
}

#[test]
fn buffers_for_devices() {
    let mut frames = allocator();
    let mut mapper = Mapper::new(Table::new(4));
    // Two pages next to each other in physical memory, a third far away.
    mapper.map_to(Page { number: 0x10 }, Frame { number: 0x200 }, flags(WRITABLE), &mut frames).unwrap().ignore();
    mapper.map_to(Page { number: 0x11 }, Frame { number: 0x201 }, flags(WRITABLE), &mut frames).unwrap().ignore();
    mapper.map_to(Page { number: 0x12 }, Frame { number: 0x10_0000 }, flags(WRITABLE), &mut frames).unwrap().ignore();
    assert_eq!(get_phys(&mapper, 0x10123), 0x20_0123);
    assert_eq!(get_phys(&mapper, 0x20000), 0);
    assert!(DMABuffer::check_bits(&mapper, 0x10800, 0x1000, 24));
    assert!(!DMABuffer::check_bits(&mapper, 0x10800, 0x1000, 21));
    assert!(DMABuffer::check_bits(&mapper, 0x10800, 0x1000, 22));
    assert!(!DMABuffer::check_bits(&mapper, 0x11800, 0x1000, 24));
    assert!(DMABuffer::check_bits(&mapper, 0x11800, 0x800, 24));
    assert!(DMABuffer::check_bits(&mapper, 0x11800, 0x1000, 64));
    assert!(!DMABuffer::check_bits(&mapper, 0x11800, 0x1000, 32));
    assert!(DMABuffer::check_bits(&mapper, 0x11800, 0x1000, 33));
    assert_eq!(DMABuffer::new(&mapper, 0x10800, 0x2000, 32), None);
    let buffer = DMABuffer::new(&mapper, 0x10800, 0x2000, 33).unwrap();
    assert_eq!(buffer, DMABuffer { source: 0x10800, buffer_len: 0x2000, phys: 0x20_0800 });
    assert_eq!(buffer.len(), 0x2000);
    assert_eq!(DMABuffer::new_mut(&mapper, 0x10800, 0x2000, 24), None);
    let mut ranges = buffer.phys_ranges();
    assert_eq!(ranges.next(&mapper), Some((0x20_0800, 0x800)));
    assert_eq!(ranges.next(&mapper), Some((0x20_1000, 0x1000)));
    assert_eq!(ranges.next(&mapper), Some((0x1_0000_0000, 0x800)));
    assert_eq!(ranges.next(&mapper), None);
    assert_eq!(
        DMABuffer::new_contig(&mapper, 0x10800, 0x1000, 32),
        Some(DMABuffer { source: 0x10800, buffer_len: 0x1000, phys: 0x20_0800 })
    );
    assert_eq!(DMABuffer::new_contig_mut(&mapper, 0x11800, 0x1000, 64), None);
    assert_eq!(DMABuffer::new_contig(&mapper, 0x10000, 0x1001, 32), None);
    assert!(buffer.update_source(&mapper));
    mapper.unmap(Page { number: 0x10 }, &mut frames).ignore();
    assert!(!buffer.update_source(&mapper));
}

#[test]
fn reservations() {
    assert_eq!(allocate(0x1000, 3), Ok(()));
    let reservation = reserve(0x40_0000, 4).unwrap();
    assert_eq!(reservation, Reservation(0x40_0000, 4));
    assert_eq!(reservation.get_mut_page(0), 0x40_0000);
    assert_eq!(reservation.get_mut_page(3), 0x40_3000);
    assert_eq!(reservation.finalise(ProtectionMode::KernelRW), Ok(()));
}

#[test]
fn sections_are_checked_before_they_are_mapped() {
    let section = |start_address: u64, end_address: u64| KernelSection {
        start_address,
        end_address,
        allocated: true,
        writable: false,
        executable: true,
    };
    assert!(section(0x10_0000, 0x10_2345).is_loadable());
    assert!(section(0xffff_ff00_0010_0000, 0xffff_ff00_0010_0001).is_loadable());
    // not at the start of a page
    assert!(!section(0x10_0010, 0x10_2345).is_loadable());
    // empty
    assert!(!section(0x10_0000, 0x10_0000).is_loadable());
    // from the lower half into the kernel window
    assert!(!section(0x10_0000, 0xffff_ff00_0000_1000).is_loadable());
    // beyond the memory that the kernel window shows
    assert!(!section(0x0000_0080_0000_0000, 0x0000_0080_0000_1000).is_loadable());
    assert!(section(0x0000_007f_ffff_f000, 0x0000_0080_0000_0000).is_loadable());
}

#[test]
fn buffer_pieces_taken_from_the_end_are_merged() {
    let mut frames = allocator();
    let mut mapper = Mapper::new(Table::new(4));
    // Three pages next to each other in physical memory, a fourth far
    // away, and a fifth that is not mapped.
    mapper.map_to(Page { number: 0x10 }, Frame { number: 0x200 }, flags(WRITABLE), &mut frames).unwrap().ignore();
    mapper.map_to(Page { number: 0x11 }, Frame { number: 0x201 }, flags(WRITABLE), &mut frames).unwrap().ignore();
    mapper.map_to(Page { number: 0x12 }, Frame { number: 0x202 }, flags(WRITABLE), &mut frames).unwrap().ignore();
    mapper.map_to(Page { number: 0x13 }, Frame { number: 0x300 }, flags(WRITABLE), &mut frames).unwrap().ignore();

    // The last bytes lie alone in their frame.
    let mut ranges = DMABuffer { source: 0x10800, buffer_len: 0x2900, phys: 0x20_0800 }.phys_ranges();
    assert_eq!(ranges.next_back(&mapper), Some((0x30_0000, 0x100)));
    // What is left lies in three frames in a row and comes as one piece.
    assert_eq!(ranges.next_back(&mapper), Some((0x20_0800, 0x2800)));
    assert_eq!(ranges.next_back(&mapper), None);
    assert_eq!(ranges.next(&mapper), None);

    // The two ends can be taken in turn.
    let mut ranges = DMABuffer { source: 0x10800, buffer_len: 0x2900, phys: 0x20_0800 }.phys_ranges();
    assert_eq!(ranges.next(&mapper), Some((0x20_0800, 0x800)));
    assert_eq!(ranges.next_back(&mapper), Some((0x30_0000, 0x100)));
    assert_eq!(ranges.next_back(&mapper), Some((0x20_1000, 0x2000)));
    assert_eq!(ranges.next(&mapper), None);

    // Within one page the piece is the buffer.
    let mut ranges = DMABuffer { source: 0x11010, buffer_len: 0x20, phys: 0x20_1010 }.phys_ranges();
    assert_eq!(ranges.next_back(&mapper), Some((0x20_1010, 0x20)));
    assert_eq!(ranges.next_back(&mapper), None);

    // A page that is not mapped is merged with nothing.
    let mut ranges = DMABuffer { source: 0x13800, buffer_len: 0x1000, phys: 0x30_0800 }.phys_ranges();
    assert_eq!(ranges.next_back(&mapper), Some((0, 0x800)));
    assert_eq!(ranges.next_back(&mapper), Some((0x30_0800, 0x800)));
    assert_eq!(ranges.next_back(&mapper), None);
}

#[test]
fn set_up_fails_with_the_error_of_its_cause() {
    // The boot information lies in the page of the text buffer.
    let areas = vec![PhysicalArea::new(0x10_0000, 0x4000_0000).unwrap()];
    assert!(matches!(init(&sections(), 0xb8800, 0xb8900, areas, boot_table()), Err(MapError::RangeInUse)));
    // No memory to build the tables in.
    assert!(matches!(init(&sections(), 0x9500, 0xa100, Vec::new(), boot_table()), Err(MapError::OutOfMemory)));
    // No section that takes up memory, whatever else holds.
    let areas = vec![PhysicalArea::new(0x10_0000, 0x4000_0000).unwrap()];
    assert!(matches!(init(&Vec::new(), 0xb8800, 0xb8900, areas, boot_table()), Err(MapError::OutOfMemory)));
}
