//! Physical memory: frames, the allocators that hand them out, and the
//! description of an address space as a set of areas.

pub mod address;
pub mod frame;
pub mod helpers;
pub mod memory_set;
pub mod bump_allocator;
pub mod recycle_allocator;
pub mod stack_allocator;
pub mod virt;

pub use self::address::{PAddr, VirtualAddress};
pub use self::frame::{Frame, FrameAllocator, FrameIter, PAGE_SIZE};
pub use self::stack_allocator::{Stack, StackAllocator};

use vstd::prelude::*;
use self::bump_allocator::BumpAllocator;
use self::memory_set::{covered, mapped_as, pairwise_disjoint, MemoryArea, MemorySet};
use self::recycle_allocator::{recycled, released, RecycleAllocator};
use crate::consts::{
    KERNEL_HEAP_OFFSET, KERNEL_HEAP_PML4, KERNEL_HEAP_SIZE, KERNEL_OFFSET, KERNEL_PML4, KERNEL_SIZE,
};
use crate::paging::entry::{EntryFlags, PRESENT, WRITABLE};
use crate::paging::table::{lemma_table_flags, new_mapping, MapError};
use crate::paging::{ActivePageTable, HardwareOp, InactivePageTable, Mapper, Page, Table, TemporaryPage};

verus! {

/// The allocator of the kernel: frames are carved out of the usable
/// regions in rising order, and frames that are given back are handed out
/// again first.
pub type KernelFrameAllocator = RecycleAllocator<BumpAllocator>;

/// Decides what to do about a page fault at `addr`. No fault can be
/// repaired yet: the answer is always that the fault was not handled.
pub fn page_fault_handler(addr: VirtualAddress) -> (handled: bool)
    ensures
        !handled,
{
    false
}

/// Get the number of frames available.
pub fn free_frames(allocator: &Option<KernelFrameAllocator>) -> (count: usize)
    requires
        allocator.is_some(),
        allocator.unwrap().wf(),
    ensures
        count == allocator.unwrap().spec_free_frames(),
{
    match allocator {
        Some(a) => a.free_frames(),
        None => 0,
    }
}

/// Get the number of frames used.
pub fn used_frames(allocator: &Option<KernelFrameAllocator>) -> (count: usize)
    requires
        allocator.is_some(),
        allocator.unwrap().wf(),
    ensures
        count == allocator.unwrap().spec_used_frames(),
{
    match allocator {
        Some(a) => a.used_frames(),
        None => 0,
    }
}

/// Allocate a range of frames.
pub fn allocate_frames(allocator: &mut Option<KernelFrameAllocator>, count: usize) -> (frame: Option<
    Frame,
>)
    requires
        old(allocator).is_some(),
        old(allocator).unwrap().wf(),
    ensures
        final(allocator).is_some(),
        final(allocator).unwrap().wf(),
        recycled(old(allocator).unwrap(), final(allocator).unwrap(), count, frame),
        // No run is handed out only where the free list does not serve the
        // request and, the regions keeping apart, no run of the regions can
        // be handed out any more.
        frame.is_none() ==> (count != 1 || old(allocator).unwrap().free_list().len() == 0) && (
        bump_allocator::areas_disjoint(old(allocator).unwrap().inner().areas()) ==> forall|g: int|
            old(allocator).unwrap().inner().cursor() <= g ==> !#[trigger] old(allocator).unwrap().inner().usable(
                g,
                count as int,
            )),
        count == 1 && old(allocator).unwrap().promises(1) ==> frame.is_some(),
        frame matches Some(f) ==> count > 0 && f.number + count - 1 <= frame::MAX_FRAME_NUMBER,
        old(allocator).unwrap().exclusive() ==> final(allocator).unwrap().exclusive() && (
        frame matches Some(f) ==> forall|g: int|
            f.number <= g < f.number + count ==> !#[trigger] final(allocator).unwrap().available(g)),
{
    match allocator.as_mut() {
        Some(a) => a.allocate_frames(count),
        None => None,
    }
}

/// Deallocate a range of frames.
pub fn deallocate_frames(allocator: &mut Option<KernelFrameAllocator>, frame: Frame, count: usize)
    requires
        old(allocator).is_some(),
        old(allocator).unwrap().wf(),
        frame.number + count <= frame::MAX_FRAME_NUMBER + 1,
    ensures
        final(allocator).is_some(),
        final(allocator).unwrap().wf(),
        released(old(allocator).unwrap(), final(allocator).unwrap(), frame, count),
{
    match allocator.as_mut() {
        Some(a) => a.deallocate_frames(frame, count),
        None => {},
    }
}

/// Allocate a kernel stack of `count` pages.
pub fn alloc_stacks(allocator: &mut Option<StackAllocator>, count: usize) -> (stack: Option<Stack>)
    requires
        old(allocator).is_some(),
        old(allocator).unwrap().wf(),
    ensures
        final(allocator).is_some(),
        final(allocator).unwrap().wf(),
        final(allocator).unwrap().last_page() == old(allocator).unwrap().last_page(),
        stack.is_some() <==> count > 0 && old(allocator).unwrap().remaining() > count,
        stack matches Some(s) ==> {
            &&& s.spec_bottom() == (old(allocator).unwrap().next_page() + 1) * 4096
            &&& s.spec_top() == (old(allocator).unwrap().next_page() + 1 + count) * 4096
            &&& s.spec_saved().is_none()
            &&& s.wf()
            &&& final(allocator).unwrap().next_page() == old(allocator).unwrap().next_page() + 1
                + count
        },
        stack.is_none() ==> final(allocator).unwrap() == old(allocator).unwrap(),
{
    match allocator.as_mut() {
        Some(a) => a.alloc_stacks(count),
        None => None,
    }
}

/// The physical address at which the interrupt controller of the
/// processor shows its registers.
pub const LAPIC_ADDRESS: u64 = 0xfee0_0000;

/// The number of the page, and of the frame, of the interrupt controller.
pub const LAPIC_PAGE: u64 = 0xfee00;

/// The address whose page is used as the temporary page while an address
/// space is built.
pub const TEMPORARY_PAGE_ADDRESS: u64 = 0xcafe_babe;

/// The number of the temporary page.
pub const TEMPORARY_PAGE: u64 = 0xcafeb;

/// The page lies in one of the two top-level slots that every address space
/// has in common: the kernel and the kernel heap.
pub open spec fn is_kernel_page(page: Page) -> bool {
    page.index(4) == KERNEL_PML4 || page.index(4) == KERNEL_HEAP_PML4
}

/// What `make_page_table` builds from `set` while `active` is loaded: a
/// hierarchy in which the pages of the kernel and of the kernel heap are
/// mapped as in `active`, the page of the interrupt controller is mapped to
/// the frame with the same number as writable, every page of `set` is mapped
/// as its area asks, and nothing else is mapped.
pub open spec fn is_address_space_of(table: InactivePageTable, set: MemorySet, active: Table) -> bool {
    &&& table.wf()
    &&& table.table.recursive_frame() == table.p4_frame.number
    &&& forall|q: Page|
        q.valid() && is_kernel_page(q) ==> #[trigger] table.table.lookup(q) == active.lookup(q)
    &&& table.table.lookup(Page { number: LAPIC_PAGE }) == Some(
        new_mapping(Frame { number: LAPIC_PAGE }, EntryFlags { bits: WRITABLE }),
    )
    &&& forall|k: int, n: int|
        0 <= k < set@.len() && #[trigger] set@[k].maps_page(n) && !is_kernel_page(
            Page { number: n as u64 },
        ) ==> mapped_as(table.table, set@[k], n)
    &&& forall|q: Page|
        q.valid() && !is_kernel_page(q) && q.number != LAPIC_PAGE && !covered(
            set@,
            set@.len() as int,
            q.number as int,
        ) ==> (#[trigger] table.table.lookup(q)).is_none()
}

/// What the processor is asked to do while page tables are built through
/// the temporary page at `temporary`: the page is flushed when the new
/// top-level table is shown there and when it is hidden again; it is flushed
/// when the loaded top-level table is shown there, and the whole cache once
/// the recursive slot points to the new table; the whole cache again once
/// the slot points back, the page when it is unmapped, and the whole cache
/// at the end.
pub open spec fn build_ops(temporary: u64) -> Seq<HardwareOp> {
    seq![
        HardwareOp::FlushPage(temporary),
        HardwareOp::FlushPage(temporary),
        HardwareOp::FlushPage(temporary),
        HardwareOp::FlushAll,
        HardwareOp::FlushAll,
        HardwareOp::FlushPage(temporary),
        HardwareOp::FlushAll,
    ]
}

/// Builds the page tables of the address space that `set` describes.
///
/// A frame for the top-level table is taken from `allocator` and set up as
/// an empty hierarchy. While the hierarchy is edited through the loaded
/// table, the pages of `set` are mapped, the top-level entries of the
/// kernel and of the kernel heap are taken over from the loaded table, and
/// the page of the interrupt controller is mapped to its frame. At the end
/// the loaded table is as it was, and the translation cache is flushed.
///
/// The call fails where the allocator runs out of frames; the loaded table
/// is as it was then, too.
pub fn make_page_table<A: FrameAllocator>(set: &MemorySet, act: &mut ActivePageTable, allocator: &mut A) -> (result:
    Result<InactivePageTable, MapError>)
    requires
        set.wf(),
        set.mappable(),
        old(act).wf(),
        old(allocator).wf(),
        old(act).mapper.lookup(Page { number: TEMPORARY_PAGE }).is_none(),
        forall|k: int| 0 <= k < set@.len() ==> !(#[trigger] set@[k]).maps_page(LAPIC_PAGE as int),
    ensures
        final(act).wf(),
        final(act).p4_frame == old(act).p4_frame,
        final(allocator).wf(),
        forall|g: int| #[trigger] final(allocator).available(g) ==> old(allocator).available(g),
        old(allocator).exclusive() ==> final(allocator).exclusive(),
        forall|q: Page|
            q.valid() ==> #[trigger] final(act).mapper.lookup(q) == old(act).mapper.lookup(q),
        match result {
            Ok(table) => {
                &&& is_address_space_of(table, *set, old(act).mapper.spec_p4())
                &&& old(allocator).available(table.p4_frame.number as int)
                &&& final(act).mapper.stale() == Set::<Page>::empty()
                &&& final(act).pending@ == old(act).pending@ + build_ops((TEMPORARY_PAGE * 4096) as u64)
            },
            Err(e) => {
                &&& e == MapError::OutOfMemory
                &&& !old(allocator).promises(7 + self::memory_set::frames_for(set@))
                // The call gave up before it touched the loaded table, after
                // the new top-level table was set up, or after the editing.
                &&& final(act).pending@ == old(act).pending@ || final(act).pending@ == old(act).pending@
                    + build_ops((TEMPORARY_PAGE * 4096) as u64).take(2) || final(act).pending@ == old(act).pending@ + build_ops((TEMPORARY_PAGE * 4096) as u64)
            },
        },
{
    let temp = Page::containing_address(TEMPORARY_PAGE_ADDRESS);
    proof {
        crate::paging::lemma_fixed_pages();
        lemma_table_flags();
    }
    let ghost needed = self::memory_set::frames_for(set@);
    let ghost promised = old(allocator).promises(7 + needed);
    let mut temporary_page = TemporaryPage::new(temp, allocator);
    let ghost remaining = *allocator;
    proof {
        if promised {
            assert(old(allocator).promises(4 + needed + 3));
            assert(remaining.promises(4 + needed));
            remaining.lemma_promises(4 + needed, 1);
            old(allocator).lemma_promises(7 + needed, 3);
        }
    }
    let frame = match allocator.allocate_frames(1) {
        Some(frame) => frame,
        None => {
            return Err(MapError::OutOfMemory);
        },
    };
    let ghost root = frame.number as int;
    proof {
        assert(remaining.available(root));
        assert(old(allocator).available(root));
    }
    let ghost taken = *allocator;
    proof {
        if promised {
            assert(remaining.promises(3 + needed + 1));
            assert(taken.promises(3 + needed));
        }
        act.mapper.spec_p4().lemma_missing_tables(temporary_page.page());
        if promised {
            temporary_page.allocator().lemma_promises(3, act.mapper.missing_tables(temporary_page.page()));
        }
    }
    let mut page_table = match InactivePageTable::new(frame, act, &mut temporary_page) {
        Ok(table) => table,
        Err(e) => {
            return Err(e);
        },
    };
    let ghost created = act.mapper;
    match act.with_start(&mut page_table, &mut temporary_page) {
        Ok(()) => {},
        Err(e) => {
            proof {
                assert forall|q: Page| q.valid() implies #[trigger] act.mapper.lookup(q) == old(act).mapper.lookup(q) by {
                    assert(created.lookup(q) == old(act).mapper.lookup(q));
                }
                assert(act.pending@ =~= old(act).pending@ + build_ops((TEMPORARY_PAGE * 4096) as u64).take(
                    2,
                ));
            }
            return Err(e);
        },
    }
    let ghost live = page_table.table;
    let ghost empty = act.mapper;
    proof {
        assert(*allocator == taken);
        if promised {
            taken.lemma_promises(3 + needed, needed);
        }
    }
    let mut outcome = set.map(&mut act.mapper, allocator);
    let ghost mapped_from = *allocator;
    proof {
        if promised {
            assert(outcome is Ok);
            assert(mapped_from.promises(3));
        }
    }
    let ghost filled = act.mapper;
    proof {
        assert forall|q: Page| q.valid() && q.number != TEMPORARY_PAGE implies #[trigger] live.lookup(
            q,
        ) == old(act).mapper.lookup(q) by {
            assert(created.lookup(q) == old(act).mapper.lookup(q));
        }
    }
    if outcome.is_ok() {
        act.mapper.share_entry(KERNEL_PML4, &page_table.table);
        let ghost first = act.mapper;
        act.mapper.share_entry(KERNEL_HEAP_PML4, &page_table.table);
        let ghost shared = act.mapper;
        let lapic = Frame::containing_address(LAPIC_ADDRESS);
        proof {
            assert(lapic.number == LAPIC_PAGE);
            let q = Page { number: LAPIC_PAGE };
            assert(q.index(4) == 0);
            assert(!covered(set@, set@.len() as int, LAPIC_PAGE as int));
            assert(filled.lookup(q) == empty.lookup(q));
            assert(first.lookup(q) == filled.lookup(q));
            assert(shared.lookup(q) == first.lookup(q));
            assert(shared.lookup(q).is_none());
        }
        proof {
            act.mapper.spec_p4().lemma_missing_tables(Mapper::identity_page(lapic));
            if promised {
                mapped_from.lemma_promises(3, act.mapper.missing_tables(Mapper::identity_page(lapic)));
            }
        }
        match act.mapper.identity_map(lapic, EntryFlags { bits: WRITABLE }, allocator) {
            Ok(flush) => {
                flush.ignore();
                proof {
                    let built = act.mapper;
                    let lapic_page = Page { number: LAPIC_PAGE };
                    assert forall|q: Page| q.valid() && is_kernel_page(q) implies #[trigger] built.lookup(
                        q,
                    ) == old(act).mapper.lookup(q) by {
                        assert(q != lapic_page);
                        assert(built.lookup(q) == shared.lookup(q));
                        assert(q.number != TEMPORARY_PAGE);
                        assert(live.lookup(q) == old(act).mapper.lookup(q));
                        if q.index(4) == KERNEL_HEAP_PML4 {
                            assert(shared.lookup(q) == live.lookup(q));
                        } else {
                            assert(shared.lookup(q) == first.lookup(q));
                            assert(first.lookup(q) == live.lookup(q));
                        }
                    }
                    assert forall|k: int, n: int|
                        0 <= k < set@.len() && #[trigger] set@[k].maps_page(n) && !is_kernel_page(
                            Page { number: n as u64 },
                        ) implies mapped_as(built.spec_p4(), set@[k], n) by {
                        let q = Page { number: n as u64 };
                        self::memory_set::lemma_area_pages_are_mappable(set@[k], n);
                        assert(mapped_as(filled.spec_p4(), set@[k], n));
                        assert(q != lapic_page);
                        assert(first.lookup(q) == filled.lookup(q));
                        assert(shared.lookup(q) == first.lookup(q));
                        assert(built.lookup(q) == shared.lookup(q));
                        assert(first.maps_small(q) == filled.maps_small(q));
                        assert(shared.maps_small(q) == first.maps_small(q));
                        assert(built.maps_small(q) == shared.maps_small(q));
                    }
                    assert forall|q: Page|
                        q.valid() && !is_kernel_page(q) && q.number != LAPIC_PAGE && !covered(
                            set@,
                            set@.len() as int,
                            q.number as int,
                        ) implies (#[trigger] built.lookup(q)).is_none() by {
                        assert(q != lapic_page);
                        assert(built.lookup(q) == shared.lookup(q));
                        assert(shared.lookup(q) == first.lookup(q));
                        assert(first.lookup(q) == filled.lookup(q));
                        assert(filled.lookup(q) == empty.lookup(q));
                    }
                }
            },
            Err(e) => {
                outcome = Err(e);
            },
        }
    }
    let ghost built = act.mapper;
    act.with_finish(&mut page_table, &mut temporary_page);
    let ghost restored = act.mapper;
    act.flush_all();
    proof {
        assert(act.pending@ =~= old(act).pending@ + build_ops((TEMPORARY_PAGE * 4096) as u64));
    }
    proof {
        assert forall|q: Page| q.valid() implies #[trigger] act.mapper.lookup(q) == old(act).mapper.lookup(q) by {
            if q.number != TEMPORARY_PAGE {
                assert(restored.lookup(q) == live.lookup(q));
            } else {
                assert(q == Page { number: TEMPORARY_PAGE });
                assert(restored.lookup(q).is_none());
            }
        }
    }
    proof {
        if outcome is Ok {
            let active = old(act).mapper.spec_p4();
            assert(page_table.table == built.spec_p4());
            assert(page_table.wf());
            assert(page_table.table.recursive_frame() == page_table.p4_frame.number);
            assert forall|q: Page| q.valid() && is_kernel_page(q) implies #[trigger] page_table.table.lookup(
                q,
            ) == active.lookup(q) by {
                assert(built.lookup(q) == old(act).mapper.lookup(q));
            }
            assert(page_table.table.lookup(Page { number: LAPIC_PAGE }) == Some(
                new_mapping(Frame { number: LAPIC_PAGE }, EntryFlags { bits: WRITABLE }),
            ));
            assert(forall|k: int, n: int|
                0 <= k < set@.len() && #[trigger] set@[k].maps_page(n) && !is_kernel_page(
                    Page { number: n as u64 },
                ) ==> mapped_as(page_table.table, set@[k], n));
            assert forall|q: Page|
                q.valid() && !is_kernel_page(q) && q.number != LAPIC_PAGE && !covered(
                    set@,
                    set@.len() as int,
                    q.number as int,
                ) implies (#[trigger] page_table.table.lookup(q)).is_none() by {
                assert(built.lookup(q).is_none());
            }
            assert(old(allocator).available(page_table.p4_frame.number as int));
        }
    }
    match outcome {
        Ok(()) => Ok(page_table),
        Err(e) => Err(e),
    }
}

/// The physical address of the text buffer of the display.
pub const VGA_BUFFER_ADDRESS: u64 = 0xb8000;

/// The number of bytes of address space that are kept for kernel stacks,
/// behind the kernel heap.
pub const KERNEL_STACKS_SIZE: u64 = 0x100_0000;

/// The value with which the page attribute table is loaded: write-back,
/// write-through, uncached and uncacheable for the entries 0 to 3,
/// write-combining for entry 4, and the entries 1 to 3 again for 5 to 7.
pub const PAT_VALUE: u64 = 0x0007_0401_0007_0406;

/// The memory types of the page attribute table.
pub const PAT_UNCACHEABLE: u64 = 0;

pub const PAT_WRITE_COMBINING: u64 = 1;

pub const PAT_WRITE_THROUGH: u64 = 4;

pub const PAT_WRITE_BACK: u64 = 6;

pub const PAT_UNCACHED: u64 = 7;

/// The value with which the page attribute table is loaded, put together
/// from the memory types of its eight entries.
pub fn init_pat() -> (value: u64)
    ensures
        value == PAT_VALUE,
{
    let pat0 = PAT_WRITE_BACK;
    let pat1 = PAT_WRITE_THROUGH;
    let pat2 = PAT_UNCACHED;
    let pat3 = PAT_UNCACHEABLE;
    let pat4 = PAT_WRITE_COMBINING;
    let pat5 = pat1;
    let pat6 = pat2;
    let pat7 = pat3;
    assert((0u64 << 56 | 7u64 << 48 | 4u64 << 40 | 1u64 << 32 | 0u64 << 24 | 7u64 << 16 | 4u64 << 8
        | 6u64) == 0x0007_0401_0007_0406) by (bit_vector);
    pat7 << 56 | pat6 << 48 | pat5 << 40 | pat4 << 32 | pat3 << 24 | pat2 << 16 | pat1 << 8 | pat0
}

/// Tells the allocator that the core of the kernel has been set up.
pub fn init_noncore(allocator: &mut Option<KernelFrameAllocator>)
    requires
        old(allocator).is_some(),
        old(allocator).unwrap().wf(),
    ensures
        final(allocator).is_some(),
        final(allocator).unwrap().wf(),
        final(allocator).unwrap().noncore(),
        final(allocator).unwrap().free_list() == old(allocator).unwrap().free_list(),
{
    match allocator.as_mut() {
        Some(a) => a.set_noncore(true),
        None => {},
    }
}

/// One section of the kernel image, as the boot loader reports it: the
/// addresses of its first byte and of the byte behind its last, whether it
/// takes up memory, and what may be done with it. The addresses are
/// physical ones, or those at which the kernel window shows them.
#[derive(Debug, Clone, Copy, PartialEq, Eq, Structural)]
pub struct KernelSection {
    pub start_address: u64,
    pub end_address: u64,
    pub allocated: bool,
    pub writable: bool,
    pub executable: bool,
}

/// The physical address that the address of a section stands for.
pub open spec fn physical_of(address: u64) -> u64 {
    if address < KERNEL_OFFSET {
        address
    } else {
        (address - KERNEL_OFFSET) as u64
    }
}

impl KernelSection {
    /// The section starts at the start of a page, is not empty, and lies in
    /// the part of physical memory that the kernel window shows.
    pub open spec fn loadable(&self) -> bool {
        &&& self.start_address % 4096 == 0
        &&& self.start_address < self.end_address
        &&& (self.start_address < KERNEL_OFFSET) == (self.end_address - 1 < KERNEL_OFFSET)
        &&& physical_of((self.end_address - 1) as u64) < KERNEL_SIZE
    }

    /// The area of the kernel window that shows the frames of the section.
    pub open spec fn area(&self) -> MemoryArea {
        MemoryArea {
            start_addr: (KERNEL_OFFSET + physical_of(self.start_address)) as u64,
            end_addr: (KERNEL_OFFSET + (physical_of((self.end_address - 1) as u64) / 4096 + 1)
                * 4096) as u64,
            phys_start_addr: Some(PAddr(physical_of(self.start_address))),
            flags: EntryFlags::for_section(self.allocated, self.writable, self.executable),
            name: "kernel",
        }
    }

    /// Whether the section starts at the start of a page, is not empty, and
    /// lies in the part of physical memory that the kernel window shows.
    pub fn is_loadable(&self) -> (result: bool)
        ensures
            result == self.loadable(),
    {
        if self.start_address % 4096 != 0 || self.start_address >= self.end_address {
            return false;
        }
        let last = self.end_address - 1;
        (self.start_address < KERNEL_OFFSET) == (last < KERNEL_OFFSET) && to_physical(last)
            < KERNEL_SIZE
    }

    /// The area of the kernel window that shows the frames of the section.
    pub fn to_area(&self) -> (area: MemoryArea)
        requires
            self.loadable(),
        ensures
            area == self.area(),
            area.mappable(),
    {
        let start = to_physical(self.start_address);
        let last = to_physical(self.end_address - 1);
        let end = (last / 4096 + 1) * 4096;
        MemoryArea::new_kernel(
            KERNEL_OFFSET + start,
            KERNEL_OFFSET + end,
            EntryFlags::from_elf_section_flags(self.allocated, self.writable, self.executable),
            "kernel",
        )
    }
}

/// The physical address that the address of a section stands for.
pub fn to_physical(address: u64) -> (physical: u64)
    ensures
        physical == physical_of(address),
{
    if address < KERNEL_OFFSET {
        address
    } else {
        address - KERNEL_OFFSET
    }
}

/// The area through which the text buffer of the display is reached: the
/// frame of the buffer at its own address, writable.
pub open spec fn vga_area() -> MemoryArea {
    MemoryArea {
        start_addr: VGA_BUFFER_ADDRESS,
        end_addr: (VGA_BUFFER_ADDRESS + 4096) as u64,
        phys_start_addr: Some(PAddr(VGA_BUFFER_ADDRESS)),
        flags: EntryFlags { bits: WRITABLE },
        name: "vga",
    }
}

/// The area through which the boot information is reached: its frames at
/// their own addresses.
pub open spec fn boot_info_area(start: u64, end: u64) -> MemoryArea {
    MemoryArea {
        start_addr: ((start / 4096) * 4096) as u64,
        end_addr: (((end - 1) / 4096 + 1) * 4096) as u64,
        phys_start_addr: Some(PAddr(((start / 4096) * 4096) as u64)),
        flags: EntryFlags { bits: PRESENT },
        name: "boot_info",
    }
}

/// The areas of the sections among the first `n` that take up memory.
pub open spec fn section_areas(sections: Seq<KernelSection>, n: int) -> Seq<MemoryArea>
    decreases n,
{
    if n <= 0 {
        Seq::empty()
    } else if sections[n - 1].allocated {
        section_areas(sections, n - 1).push(sections[n - 1].area())
    } else {
        section_areas(sections, n - 1)
    }
}

/// The description of the address space of the kernel: the sections of the
/// image that take up memory, shown in the kernel window, the text buffer
/// of the display, and the boot information. The call fails where two of
/// these touch a common page.
pub fn kernel_memory_set(sections: &Vec<KernelSection>, boot_info_start: u64, boot_info_end: u64) -> (result:
    Result<MemorySet, MapError>)
    requires
        forall|i: int|
            0 <= i < sections@.len() && sections@[i].allocated ==> (#[trigger] sections@[i]).loadable(),
        boot_info_start < boot_info_end <= 0x0000_8000_0000_0000,
    ensures
        match result {
            Ok(set) => {
                &&& set.wf()
                &&& set.mappable()
                &&& set@ == section_areas(sections@, sections@.len() as int).push(vga_area()).push(
                    boot_info_area(boot_info_start, boot_info_end),
                )
            },
            Err(e) => e == MapError::RangeInUse && !pairwise_disjoint(
                section_areas(sections@, sections@.len() as int).push(vga_area()).push(
                    boot_info_area(boot_info_start, boot_info_end),
                ),
            ),
        },
{
    let ghost all = section_areas(sections@, sections@.len() as int).push(vga_area()).push(
        boot_info_area(boot_info_start, boot_info_end),
    );
    let mut set = MemorySet::new();
    let mut i: usize = 0;
    while i < sections.len()
        invariant
            i <= sections@.len(),
            set.wf(),
            set.mappable(),
            set@ == section_areas(sections@, i as int),
            forall|k: int|
                0 <= k < sections@.len() && sections@[k].allocated ==> (
                #[trigger] sections@[k]).loadable(),
            all == section_areas(sections@, sections@.len() as int).push(vga_area()).push(
                boot_info_area(boot_info_start, boot_info_end),
            ),
        decreases sections@.len() - i,
    {
        let section = sections[i];
        if section.allocated {
            let area = section.to_area();
            let ghost before = set@;
            match set.push(area) {
                Ok(()) => {
                    assert(set@ =~= section_areas(sections@, i + 1));
                    assert forall|k: int| 0 <= k < set@.len() implies (#[trigger] set@[k]).mappable() by {
                        if k < before.len() {
                            assert(before[k].mappable());
                        }
                    }
                },
                Err(e) => {
                    proof {
                        let k = choose|k: int| 0 <= k < before.len() && area.overlaps(&#[trigger] before[k]);
                        lemma_section_areas_prefix(sections@, i as int + 1, sections@.len() as int);
                        lemma_section_areas_prefix(sections@, i as int, i as int + 1);
                        let some = section_areas(sections@, i as int + 1);
                        assert(some[before.len() as int] == area);
                        assert(all[k] == before[k]);
                        assert(all[before.len() as int] == area);
                        assert(all[before.len() as int].overlaps(&all[k]));
                    }
                    return Err(e);
                },
            }
        } else {
            assert(set@ =~= section_areas(sections@, i + 1));
        }
        i += 1;
    }
    let ghost kernel = set@;
    proof {
        lemma_table_flags();
    }
    // identity map the VGA text buffer
    let vga = MemoryArea::new_identity(
        VGA_BUFFER_ADDRESS,
        VGA_BUFFER_ADDRESS + 4096,
        EntryFlags { bits: WRITABLE },
        "vga",
    );
    match set.push(vga) {
        Ok(()) => {},
        Err(e) => {
            proof {
                let k = choose|k: int| 0 <= k < kernel.len() && vga.overlaps(&#[trigger] kernel[k]);
                assert(all[k] == kernel[k]);
                assert(all[kernel.len() as int] == vga);
                assert(all[kernel.len() as int].overlaps(&all[k]));
            }
            return Err(e);
        },
    }
    let ghost with_vga = set@;
    // identity map the multiboot info structure
    let boot_start = (boot_info_start / 4096) * 4096;
    let boot_end = ((boot_info_end - 1) / 4096 + 1) * 4096;
    let boot = MemoryArea::new_identity(boot_start, boot_end, EntryFlags { bits: PRESENT }, "boot_info");
    match set.push(boot) {
        Ok(()) => {},
        Err(e) => {
            proof {
                let k = choose|k: int| 0 <= k < with_vga.len() && boot.overlaps(&#[trigger] with_vga[k]);
                assert(all[k] == with_vga[k]);
                assert(all[with_vga.len() as int] == boot);
                assert(all[with_vga.len() as int].overlaps(&all[k]));
            }
            return Err(e);
        },
    }
    proof {
        assert(set@ =~= all);
        assert forall|k: int| 0 <= k < set@.len() implies (#[trigger] set@[k]).mappable() by {
            if k < kernel.len() {
                assert(kernel[k].mappable());
            }
        }
    }
    Ok(set)
}

/// The areas of the first `n` sections are the beginning of the areas of
/// the first `m`.
pub proof fn lemma_section_areas_prefix(sections: Seq<KernelSection>, n: int, m: int)
    requires
        0 <= n <= m <= sections.len(),
    ensures
        section_areas(sections, n).len() <= section_areas(sections, m).len(),
        forall|k: int|
            0 <= k < section_areas(sections, n).len() ==> section_areas(sections, m)[k]
                == section_areas(sections, n)[k],
    decreases m - n,
{
    if n < m {
        lemma_section_areas_prefix(sections, n, m - 1);
    }
}

/// Builds the address space of the kernel and loads it.
///
/// A new hierarchy of page tables is made in a frame of `allocator` and
/// filled, through the loaded table, with the areas of the kernel: the
/// sections of the image in the kernel window, the text buffer of the
/// display and the boot information. Then the new hierarchy is loaded in
/// the place of the old one, which is let go.
///
/// The call fails with `RangeInUse` where areas of the kernel touch a
/// common page, and with `OutOfMemory` where the allocator runs out of
/// frames. The loaded table is as it was in both cases.
pub fn remap_the_kernel<A: FrameAllocator>(
    sections: &Vec<KernelSection>,
    boot_info_start: u64,
    boot_info_end: u64,
    active_table: &mut ActivePageTable,
    allocator: &mut A,
) -> (result: Result<(), MapError>)
    requires
        forall|i: int|
            0 <= i < sections@.len() && sections@[i].allocated ==> (#[trigger] sections@[i]).loadable(),
        boot_info_start < boot_info_end <= 0x0000_8000_0000_0000,
        old(active_table).wf(),
        old(active_table).mapper.lookup(Page { number: TEMPORARY_PAGE }).is_none(),
        old(allocator).wf(),
    ensures
        final(active_table).wf(),
        final(allocator).wf(),
        old(allocator).exclusive() ==> final(allocator).exclusive(),
        forall|g: int| #[trigger] final(allocator).available(g) ==> old(allocator).available(g),
        match result {
            Ok(()) => {
                let areas = section_areas(sections@, sections@.len() as int).push(vga_area()).push(
                    boot_info_area(boot_info_start, boot_info_end),
                );
                &&& pairwise_disjoint(areas)
                &&& forall|k: int| 0 <= k < areas.len() ==> (#[trigger] areas[k]).mappable()
                &&& old(allocator).available(final(active_table).p4_frame.number as int)
                &&& final(active_table).mapper.spec_p4().recursive_frame() == final(active_table).p4_frame.number
                &&& forall|k: int, n: int|
                    0 <= k < areas.len() && #[trigger] areas[k].maps_page(n) ==> mapped_as(
                        final(active_table).mapper.spec_p4(),
                        areas[k],
                        n,
                    )
                &&& forall|q: Page|
                    q.valid() && !covered(areas, areas.len() as int, q.number as int) ==> (
                    #[trigger] final(active_table).mapper.lookup(q)).is_none()
                &&& final(active_table).mapper.stale() == Set::<Page>::empty()
                // The processor is asked for what building the tables needs,
                // but for the flush at its end, and then to load the new
                // top-level table.
                &&& final(active_table).pending@ == (old(active_table).pending@ + build_ops(
                    (TEMPORARY_PAGE * 4096) as u64,
                ).take(6)).push(HardwareOp::LoadRoot(PAddr((final(active_table).p4_frame.number * 4096) as u64)))
            },
            Err(e) => {
                &&& final(active_table).p4_frame == old(active_table).p4_frame
                &&& forall|q: Page|
                    q.valid() ==> #[trigger] final(active_table).mapper.lookup(q) == old(active_table).mapper.lookup(q)
            },
        },
        // Areas that touch a common page are turned down before a frame is
        // asked for; every other failure is one of the allocator.
        !pairwise_disjoint(
            section_areas(sections@, sections@.len() as int).push(vga_area()).push(
                boot_info_area(boot_info_start, boot_info_end),
            ),
        ) ==> result == Err::<(), MapError>(MapError::RangeInUse) && *final(allocator) == *old(allocator)
            && final(active_table).mapper == old(active_table).mapper && final(active_table).pending
            == old(active_table).pending,
        pairwise_disjoint(
            section_areas(sections@, sections@.len() as int).push(vga_area()).push(
                boot_info_area(boot_info_start, boot_info_end),
            ),
        ) ==> result is Ok || result == Err::<(), MapError>(MapError::OutOfMemory),
        // The call succeeds where the areas keep apart and the allocator
        // promises the frames that suffice: three for the tables of the
        // temporary page, one for the new top-level table, and four for
        // every page of the areas. It takes no more than that.
        pairwise_disjoint(
            section_areas(sections@, sections@.len() as int).push(vga_area()).push(
                boot_info_area(boot_info_start, boot_info_end),
            ),
        ) && old(allocator).promises(
            4 + self::memory_set::frames_for(
                section_areas(sections@, sections@.len() as int).push(vga_area()).push(
                    boot_info_area(boot_info_start, boot_info_end),
                ),
            ),
        ) ==> result is Ok,
        result is Ok ==> forall|n: nat|
            old(allocator).promises(
                n + 4 + self::memory_set::frames_for(
                    section_areas(sections@, sections@.len() as int).push(vga_area()).push(
                        boot_info_area(boot_info_start, boot_info_end),
                    ),
                ),
            ) ==> #[trigger] final(allocator).promises(n),
{
    let ghost needed = self::memory_set::frames_for(
        section_areas(sections@, sections@.len() as int).push(vga_area()).push(
            boot_info_area(boot_info_start, boot_info_end),
        ),
    );
    let set = match kernel_memory_set(sections, boot_info_start, boot_info_end) {
        Ok(set) => set,
        Err(e) => {
            return Err(e);
        },
    };
    let temp = Page::containing_address(TEMPORARY_PAGE_ADDRESS);
    proof {
        crate::paging::lemma_fixed_pages();
    }
    let mut temporary_page = TemporaryPage::new(temp, allocator);
    let ghost remaining = *allocator;
    let ghost promised = old(allocator).promises(4 + needed);
    proof {
        if promised {
            assert(old(allocator).promises(1 + needed + 3));
            assert(remaining.promises(1 + needed));
            remaining.lemma_promises(1 + needed, 1);
            old(allocator).lemma_promises(4 + needed, 3);
        }
    }
    let frame = match allocator.allocate_frames(1) {
        Some(frame) => frame,
        None => {
            return Err(MapError::OutOfMemory);
        },
    };
    proof {
        assert(remaining.available(frame.number as int));
        assert(old(allocator).available(frame.number as int));
    }
    let ghost taken = *allocator;
    proof {
        if promised {
            assert(taken.promises(needed));
        }
        assert forall|n: nat| old(allocator).promises(n + 4 + needed) implies #[trigger] taken.promises(
            n + needed,
        ) by {
            assert(old(allocator).promises(n + needed + 1 + 3));
            assert(remaining.promises(n + needed + 1));
        }
        active_table.mapper.spec_p4().lemma_missing_tables(temporary_page.page());
        if promised {
            temporary_page.allocator().lemma_promises(3, active_table.mapper.missing_tables(temporary_page.page()));
        }
    }
    let mut new_table = match InactivePageTable::new(frame, active_table, &mut temporary_page) {
        Ok(table) => table,
        Err(e) => {
            return Err(e);
        },
    };
    let ghost created = active_table.mapper;
    match active_table.with_start(&mut new_table, &mut temporary_page) {
        Ok(()) => {},
        Err(e) => {
            proof {
                assert forall|q: Page| q.valid() implies #[trigger] active_table.mapper.lookup(q)
                    == old(active_table).mapper.lookup(q) by {
                    assert(created.lookup(q) == old(active_table).mapper.lookup(q));
                }
            }
            return Err(e);
        },
    }
    let ghost live = new_table.table;
    let ghost empty = active_table.mapper;
    assert(*allocator == taken);
    let outcome = set.map(&mut active_table.mapper, allocator);
    proof {
        if outcome is Ok {
            assert forall|n: nat| old(allocator).promises(n + 4 + needed) implies #[trigger] allocator.promises(
                n,
            ) by {
                assert(taken.promises(n + needed));
            }
        }
    }
    let ghost filled = active_table.mapper;
    active_table.with_finish(&mut new_table, &mut temporary_page);
    let ghost restored = active_table.mapper;
    proof {
        assert forall|q: Page| q.valid() implies #[trigger] restored.lookup(q) == old(active_table).mapper.lookup(q) by {
            if q.number != TEMPORARY_PAGE {
                assert(restored.lookup(q) == live.lookup(q));
                assert(created.lookup(q) == old(active_table).mapper.lookup(q));
            } else {
                assert(q == Page { number: TEMPORARY_PAGE });
            }
        }
    }
    proof {
        assert(active_table.pending@ =~= old(active_table).pending@ + build_ops(
            (TEMPORARY_PAGE * 4096) as u64,
        ).take(6));
    }
    match outcome {
        Ok(()) => {
            let _old_table = active_table.switch(new_table);
            proof {
                assert forall|q: Page|
                    q.valid() && !covered(set@, set@.len() as int, q.number as int) implies (
                #[trigger] active_table.mapper.lookup(q)).is_none() by {
                    assert(filled.lookup(q) == empty.lookup(q));
                }
            }
            Ok(())
        },
        Err(e) => Err(e),
    }
}

/// Maps the pages of `area` in the loaded table and flushes the
/// translation cache at the end.
///
/// The call fails where the allocator runs out of frames. Pages outside the
/// area are mapped as before either way.
pub fn map_area<A: FrameAllocator>(active_table: &mut ActivePageTable, area: MemoryArea, allocator: &mut A) -> (result:
    Result<(), MapError>)
    requires
        old(active_table).wf(),
        old(allocator).wf(),
        area.mappable(),
        forall|n: int| #[trigger]
            area.maps_page(n) ==> old(active_table).mapper.lookup(Page { number: n as u64 }).is_none(),
    ensures
        final(active_table).wf(),
        final(active_table).p4_frame == old(active_table).p4_frame,
        final(active_table).mapper.spec_p4().recursive_frame() == old(active_table).mapper.spec_p4().recursive_frame(),
        final(allocator).wf(),
        forall|g: int| #[trigger] final(allocator).available(g) ==> old(allocator).available(g),
        old(allocator).exclusive() ==> final(allocator).exclusive(),
        forall|q: Page|
            q.valid() && !area.maps_page(q.number as int) ==> #[trigger] final(active_table).mapper.lookup(q) == old(active_table).mapper.lookup(q),
        forall|q: Page|
            q.valid() && !area.maps_page(q.number as int) ==> #[trigger] final(active_table).mapper.maps_small(q) == old(active_table).mapper.maps_small(q),
        result is Ok ==> forall|n: int| #[trigger]
            area.maps_page(n) ==> mapped_as(final(active_table).mapper.spec_p4(), area, n),
        result is Ok ==> final(active_table).mapper.stale() == Set::<Page>::empty(),
        result is Err ==> result == Err::<(), MapError>(MapError::OutOfMemory),
        // The whole translation cache is flushed once the pages are mapped.
        result is Ok ==> final(active_table).pending@ == old(active_table).pending@.push(HardwareOp::FlushAll),
        result is Err ==> final(active_table).pending@ == old(active_table).pending@,
        // No frame is needed where the area has a fixed physical start and
        // the tables for its pages are there.
        area.phys_start_addr is Some && (forall|n: int| #[trigger]
            area.maps_page(n) ==> old(active_table).mapper.has_tables_for(Page { number: n as u64 }))
            ==> result is Ok,
        // The call succeeds where the allocator promises four frames for
        // every page of the area, and takes no more than that.
        old(allocator).promises(4 * area.page_count()) ==> result is Ok,
        result is Ok ==> forall|n: nat|
            old(allocator).promises(n + 4 * area.page_count()) ==> #[trigger] final(allocator).promises(n),
        // The pages of an area without a fixed physical start lie in frames
        // that the allocator handed out, each in one of its own.
        result is Ok ==> self::memory_set::own_frames(
            seq![area],
            1,
            0,
            final(active_table).mapper,
            *old(allocator),
            *final(allocator),
        ),
{
    let mut set = MemorySet::new();
    let pushed = set.push(area);
    assert(pushed is Ok);
    assert(set@ =~= seq![area]);
    proof {
        assert forall|k: int, n: int|
            0 <= k < set@.len() && #[trigger] set@[k].maps_page(n) implies active_table.mapper.lookup(
            Page { number: n as u64 },
        ).is_none() by {
            assert(area.maps_page(n));
        }
    }
    let ghost before = active_table.mapper;
    proof {
        assert(self::memory_set::pages_of(set@, 0) == 0);
        assert(self::memory_set::pages_of(set@, 1) == area.page_count());
        assert(self::memory_set::frames_for(set@) == 4 * area.page_count());
    }
    let outcome = set.map(&mut active_table.mapper, allocator);
    let ghost after = active_table.mapper;
    proof {
        assert forall|q: Page|
            q.valid() && !area.maps_page(q.number as int) implies #[trigger] after.lookup(q)
            == before.lookup(q) by {
            if covered(set@, set@.len() as int, q.number as int) {
                let k = choose|k: int| 0 <= k < set@.len() && #[trigger] set@[k].maps_page(q.number as int);
                assert(set@[k] == area);
            }
        }
        assert forall|q: Page|
            q.valid() && !area.maps_page(q.number as int) implies #[trigger] after.maps_small(q)
            == before.maps_small(q) by {
            if covered(set@, set@.len() as int, q.number as int) {
                let k = choose|k: int| 0 <= k < set@.len() && #[trigger] set@[k].maps_page(q.number as int);
                assert(set@[k] == area);
            }
        }
        if outcome is Ok {
            assert forall|n: int| #[trigger] area.maps_page(n) implies mapped_as(
                after.spec_p4(),
                area,
                n,
            ) by {
                assert(set@[0].maps_page(n));
            }
        }
    }
    proof {
        if area.phys_start_addr is Some && (forall|n: int| #[trigger]
            area.maps_page(n) ==> old(active_table).mapper.has_tables_for(Page { number: n as u64 })) {
            assert forall|k: int, n: int|
                0 <= k < set@.len() && #[trigger] set@[k].maps_page(n) implies set@[k].phys_start_addr is Some
                && before.has_tables_for(Page { number: n as u64 }) by {
                assert(set@[k] == area);
                assert(area.maps_page(n));
            }
            assert(self::memory_set::fixed_with_tables(set@, before));
        }
    }
    match outcome {
        Ok(()) => {
            active_table.flush_all();
            proof {
                let areas = seq![area];
                let start = *old(allocator);
                let now = *allocator;
                let pt = active_table.mapper;
                assert(set@ =~= areas);
                assert(self::memory_set::own_frames(areas, 1, 0, after, start, now));
                assert(pt.spec_p4() == after.spec_p4());
                assert forall|m: int| #[trigger]
                    self::memory_set::frame_at(pt, m) == self::memory_set::frame_at(after, m) by {
                    assert(pt.lookup(Page { number: m as u64 }) == after.lookup(Page { number: m as u64 }));
                }
                assert forall|m: int|
                    self::memory_set::own_page(areas, m) && self::memory_set::reached(
                        areas,
                        1,
                        0,
                        m,
                    ) implies start.available(#[trigger] self::memory_set::frame_at(pt, m)) by {
                    assert(start.available(self::memory_set::frame_at(after, m)));
                }
                if start.exclusive() {
                    assert forall|m: int|
                        self::memory_set::own_page(areas, m) && self::memory_set::reached(
                            areas,
                            1,
                            0,
                            m,
                        ) implies !now.available(#[trigger] self::memory_set::frame_at(pt, m)) by {
                        assert(!now.available(self::memory_set::frame_at(after, m)));
                    }
                    assert forall|a: int, b: int|
                        self::memory_set::own_page(areas, a) && self::memory_set::reached(areas, 1, 0, a)
                            && self::memory_set::own_page(areas, b) && self::memory_set::reached(
                            areas,
                            1,
                            0,
                            b,
                        ) && a != b implies #[trigger] self::memory_set::frame_at(pt, a)
                        != #[trigger] self::memory_set::frame_at(pt, b) by {
                        assert(self::memory_set::frame_at(after, a) != self::memory_set::frame_at(after, b));
                    }
                }
            }
            proof {
                assert forall|q: Page|
                    q.valid() && !area.maps_page(
                        q.number as int,
                    ) implies #[trigger] active_table.mapper.maps_small(q) == old(active_table).mapper.maps_small(q) by {
                    assert(after.maps_small(q) == before.maps_small(q));
                }
                assert forall|q: Page|
                    q.valid() && !area.maps_page(
                        q.number as int,
                    ) implies #[trigger] active_table.mapper.lookup(q) == old(active_table).mapper.lookup(q) by {
                    assert(after.lookup(q) == before.lookup(q));
                }
            }
            Ok(())
        },
        Err(e) => Err(e),
    }
}

/// Maps the pages of the kernel heap, `size` bytes from `offset` on, to
/// frames of `allocator`: present, writable, global and barred from
/// execution. At the end the translation cache is flushed.
///
/// The call fails where the allocator runs out of frames. Pages outside the
/// heap are mapped as before either way.
pub fn map_heap<A: FrameAllocator>(active_table: &mut ActivePageTable, offset: u64, size: u64, allocator: &mut A) -> (result:
    Result<(), MapError>)
    requires
        old(active_table).wf(),
        old(allocator).wf(),
        offset + size <= u64::MAX,
        heap_area(offset, size).mappable(),
        forall|n: int| #[trigger]
            heap_area(offset, size).maps_page(n) ==> old(active_table).mapper.lookup(
                Page { number: n as u64 },
            ).is_none(),
    ensures
        final(active_table).wf(),
        final(active_table).p4_frame == old(active_table).p4_frame,
        final(allocator).wf(),
        forall|g: int| #[trigger] final(allocator).available(g) ==> old(allocator).available(g),
        forall|q: Page|
            q.valid() && !heap_area(offset, size).maps_page(q.number as int) ==> #[trigger] final(active_table).mapper.lookup(q) == old(active_table).mapper.lookup(q),
        result is Ok ==> forall|n: int| #[trigger]
            heap_area(offset, size).maps_page(n) ==> mapped_as(
                final(active_table).mapper.spec_p4(),
                heap_area(offset, size),
                n,
            ),
        result is Ok ==> final(active_table).mapper.stale() == Set::<Page>::empty(),
        result is Err ==> result == Err::<(), MapError>(MapError::OutOfMemory),
        // The whole translation cache is flushed once the pages are mapped.
        result is Ok ==> final(active_table).pending@ == old(active_table).pending@.push(HardwareOp::FlushAll),
        result is Err ==> final(active_table).pending@ == old(active_table).pending@,
        // The call succeeds where the allocator promises four frames for
        // every page of the heap, and takes no more than that.
        old(allocator).promises(4 * heap_area(offset, size).page_count()) ==> result is Ok,
        result is Ok ==> forall|n: nat|
            old(allocator).promises(n + 4 * heap_area(offset, size).page_count()) ==> #[trigger] final(allocator).promises(n),
        // The pages of the heap lie in frames that the allocator handed out,
        // each in one of its own.
        result is Ok ==> self::memory_set::own_frames(
            seq![heap_area(offset, size)],
            1,
            0,
            final(active_table).mapper,
            *old(allocator),
            *final(allocator),
        ),
{
    let area = MemoryArea::new(
        offset,
        offset + size,
        EntryFlags {
            bits: PRESENT | crate::paging::entry::GLOBAL | WRITABLE
                | crate::paging::entry::NO_EXECUTE,
        },
        "heap",
    );
    map_area(active_table, area, allocator)
}

/// The area of a kernel heap of `size` bytes from `offset` on.
pub open spec fn heap_area(offset: u64, size: u64) -> MemoryArea {
    MemoryArea {
        start_addr: offset,
        end_addr: (offset + size) as u64,
        phys_start_addr: None,
        flags: EntryFlags {
            bits: PRESENT | crate::paging::entry::GLOBAL | WRITABLE
                | crate::paging::entry::NO_EXECUTE,
        },
        name: "heap",
    }
}

/// The area that is kept for kernel stacks: the 16 MiB behind the kernel
/// heap, writable.
pub open spec fn stacks_area() -> MemoryArea {
    MemoryArea {
        start_addr: (KERNEL_HEAP_OFFSET + KERNEL_HEAP_SIZE) as u64,
        end_addr: (KERNEL_HEAP_OFFSET + KERNEL_HEAP_SIZE + KERNEL_STACKS_SIZE) as u64,
        phys_start_addr: None,
        flags: EntryFlags { bits: WRITABLE },
        name: "stacks",
    }
}

/// The first and the last physical address of the kernel image: the lowest
/// start and the highest end, less one, of the sections that take up
/// memory. `None` where no section does.
pub open spec fn extent_of(sections: Seq<KernelSection>, n: int) -> Option<(u64, u64)>
    decreases n,
{
    if n <= 0 {
        None
    } else {
        let section = sections[n - 1];
        let rest = extent_of(sections, n - 1);
        if !section.allocated {
            rest
        } else {
            let start = physical_of(section.start_address);
            let end = physical_of((section.end_address - 1) as u64);
            match rest {
                None => Some((start, end)),
                Some((low, high)) => Some(
                    (
                        if start < low {
                            start
                        } else {
                            low
                        },
                        if end > high {
                            end
                        } else {
                            high
                        },
                    ),
                ),
            }
        }
    }
}

/// The first and the last physical address of the kernel image, or `None`
/// where no section takes up memory.
pub fn kernel_extent(sections: &Vec<KernelSection>) -> (extent: Option<(u64, u64)>)
    requires
        forall|i: int|
            0 <= i < sections@.len() && sections@[i].allocated ==> (#[trigger] sections@[i]).loadable(),
    ensures
        extent == extent_of(sections@, sections@.len() as int),
        extent matches Some(e) ==> e.0 <= e.1 < KERNEL_SIZE,
        extent.is_none() <==> forall|i: int| 0 <= i < sections@.len() ==> !(#[trigger] sections@[i]).allocated,
{
    let mut extent: Option<(u64, u64)> = None;
    let mut i: usize = 0;
    while i < sections.len()
        invariant
            i <= sections@.len(),
            extent == extent_of(sections@, i as int),
            extent matches Some(e) ==> e.0 <= e.1 < KERNEL_SIZE,
            extent.is_none() <==> forall|k: int| 0 <= k < i ==> !(#[trigger] sections@[k]).allocated,
            forall|k: int|
                0 <= k < sections@.len() && sections@[k].allocated ==> (
                #[trigger] sections@[k]).loadable(),
        decreases sections@.len() - i,
    {
        let section = sections[i];
        if section.allocated {
            assert(sections@[i as int].loadable());
            let start = to_physical(section.start_address);
            let end = to_physical(section.end_address - 1);
            extent = match extent {
                None => Some((start, end)),
                Some((low, high)) => Some(
                    (
                        if start < low {
                            start
                        } else {
                            low
                        },
                        if end > high {
                            end
                        } else {
                            high
                        },
                    ),
                ),
            };
        }
        i += 1;
    }
    extent
}

/// What the memory management of the kernel consists of once it is set up.
pub struct Memory {
    pub frame_allocator: Option<KernelFrameAllocator>,
    pub stack_allocator: Option<StackAllocator>,
    pub active_table: ActivePageTable,
}

/// Sets the memory management up from what the boot loader reports: the
/// sections of the kernel image, the place of the boot information, and the
/// usable regions of physical memory. `boot_table` is the hierarchy of page
/// tables that is loaded when the kernel starts.
///
/// The frame allocator is made over the usable regions, sparing the kernel
/// image and the boot information. The address space of the kernel is
/// built and loaded. The pages that are kept for kernel stacks are mapped,
/// and the stack allocator is made over them.
///
/// The call fails with `RangeInUse` where areas of the kernel touch a
/// common page, and with `OutOfMemory` where the frames do not suffice or
/// where no section of the kernel takes up memory.
pub fn init(
    sections: &Vec<KernelSection>,
    boot_info_start: u64,
    boot_info_end: u64,
    memory_areas: Vec<bump_allocator::PhysicalArea>,
    boot_table: ActivePageTable,
) -> (result: Result<Memory, MapError>)
    requires
        forall|i: int|
            0 <= i < sections@.len() && sections@[i].allocated ==> (#[trigger] sections@[i]).loadable(),
        boot_info_start < boot_info_end <= 0x0000_8000_0000_0000,
        forall|i: int| 0 <= i < memory_areas@.len() ==> (#[trigger] memory_areas@[i]).valid(),
        boot_table.wf(),
        boot_table.mapper.lookup(Page { number: TEMPORARY_PAGE }).is_none(),
    ensures
        // Without a section that takes up memory there is no kernel to
        // spare; areas that touch a common page are turned down; every
        // other failure is one of the allocator over `memory_areas`.
        extent_of(sections@, sections@.len() as int).is_none() ==> result == Err::<Memory, MapError>(
            MapError::OutOfMemory,
        ),
        extent_of(sections@, sections@.len() as int).is_some() && !pairwise_disjoint(
            section_areas(sections@, sections@.len() as int).push(vga_area()).push(
                boot_info_area(boot_info_start, boot_info_end),
            ),
        ) ==> result == Err::<Memory, MapError>(MapError::RangeInUse),
        extent_of(sections@, sections@.len() as int).is_some() && pairwise_disjoint(
            section_areas(sections@, sections@.len() as int).push(vga_area()).push(
                boot_info_area(boot_info_start, boot_info_end),
            ),
        ) ==> result is Ok || result == Err::<Memory, MapError>(MapError::OutOfMemory),
        // The call succeeds where there is a kernel, its areas keep apart,
        // and the usable regions hold the frames that suffice: four for the
        // tables of the temporary page and the new top-level table, and four
        // for every page of the areas of the kernel and of the kernel
        // stacks.
        extent_of(sections@, sections@.len() as int).is_some() && pairwise_disjoint(
            section_areas(sections@, sections@.len() as int).push(vga_area()).push(
                boot_info_area(boot_info_start, boot_info_end),
            ),
        ) && self::bump_allocator::fresh_promises(
            memory_areas@,
            (
                extent_of(sections@, sections@.len() as int).unwrap().0 as int / 4096,
                extent_of(sections@, sections@.len() as int).unwrap().1 as int / 4096,
            ),
            (boot_info_start as int / 4096, (boot_info_end - 1) / 4096),
            4 + self::memory_set::frames_for(
                section_areas(sections@, sections@.len() as int).push(vga_area()).push(
                    boot_info_area(boot_info_start, boot_info_end),
                ),
            ) + 4 * stacks_area().page_count(),
        ) ==> result is Ok,
        result matches Ok(memory) ==> {
            let areas = section_areas(sections@, sections@.len() as int).push(vga_area()).push(
                boot_info_area(boot_info_start, boot_info_end),
            );
            &&& memory.active_table.wf()
            &&& memory.frame_allocator matches Some(a) && a.wf() && a.exclusive()
            &&& memory.stack_allocator matches Some(s) && s.wf() && s.next_page()
                == stacks_area().first_page() && s.last_page() == stacks_area().end_page() - 1
            &&& pairwise_disjoint(areas)
            &&& forall|k: int, n: int|
                0 <= k < areas.len() && #[trigger] areas[k].maps_page(n) ==> mapped_as(
                    memory.active_table.mapper.spec_p4(),
                    areas[k],
                    n,
                )
            &&& forall|n: int| #[trigger]
                stacks_area().maps_page(n) ==> mapped_as(
                    memory.active_table.mapper.spec_p4(),
                    stacks_area(),
                    n,
                )
            &&& forall|q: Page|
                q.valid() && !covered(areas, areas.len() as int, q.number as int)
                    && !stacks_area().maps_page(q.number as int) ==> (
                #[trigger] memory.active_table.mapper.lookup(q)).is_none()
            &&& memory.active_table.mapper.stale() == Set::<Page>::empty()
        },
{
    let (kernel_start, kernel_end) = match kernel_extent(sections) {
        Some(extent) => extent,
        None => {
            return Err(MapError::OutOfMemory);
        },
    };
    let bump = BumpAllocator::new(kernel_start, kernel_end, boot_info_start, boot_info_end - 1, memory_areas);
    let ghost first = bump;
    let mut frame_allocator = RecycleAllocator::new(bump);
    let ghost start = frame_allocator;
    let ghost kernel_needs = 4 + self::memory_set::frames_for(
        section_areas(sections@, sections@.len() as int).push(vga_area()).push(
            boot_info_area(boot_info_start, boot_info_end),
        ),
    );
    let ghost needed = kernel_needs + 4 * stacks_area().page_count();
    let ghost promised = self::bump_allocator::fresh_promises(
        memory_areas@,
        (kernel_start as int / 4096, kernel_end as int / 4096),
        (boot_info_start as int / 4096, (boot_info_end - 1) / 4096),
        needed,
    );
    proof {
        if promised {
            self::bump_allocator::lemma_fresh_promises(first, needed);
            assert(start.promises(needed));
            start.lemma_promises(needed, kernel_needs);
        }
    }
    let mut active_table = boot_table;
    match remap_the_kernel(
        sections,
        boot_info_start,
        boot_info_end,
        &mut active_table,
        &mut frame_allocator,
    ) {
        Ok(()) => {},
        Err(e) => {
            return Err(e);
        },
    }
    let ghost areas = section_areas(sections@, sections@.len() as int).push(vga_area()).push(
        boot_info_area(boot_info_start, boot_info_end),
    );
    let ghost remapped = active_table.mapper;
    proof {
        lemma_table_flags();
        lemma_stacks_lie_apart(sections@, boot_info_start, boot_info_end);
    }
    let stack_start = KERNEL_HEAP_OFFSET + KERNEL_HEAP_SIZE;
    let stack_end = KERNEL_HEAP_OFFSET + KERNEL_HEAP_SIZE + KERNEL_STACKS_SIZE;
    let stacks = MemoryArea::new(stack_start, stack_end, EntryFlags { bits: WRITABLE }, "stacks");
    proof {
        assert(stacks == stacks_area());
        if promised {
            assert(start.promises(4 * stacks_area().page_count() + kernel_needs));
            assert(frame_allocator.promises(4 * stacks_area().page_count()));
        }
    }
    match map_area(&mut active_table, stacks, &mut frame_allocator) {
        Ok(()) => {},
        Err(e) => {
            return Err(e);
        },
    }
    proof {
        assert forall|k: int, n: int|
            0 <= k < areas.len() && #[trigger] areas[k].maps_page(n) implies mapped_as(
            active_table.mapper.spec_p4(),
            areas[k],
            n,
        ) by {
            let q = Page { number: n as u64 };
            self::memory_set::lemma_area_pages_are_mappable(areas[k], n);
            assert(mapped_as(remapped.spec_p4(), areas[k], n));
            assert(!stacks_area().maps_page(n));
            assert(active_table.mapper.lookup(q) == remapped.lookup(q));
            assert(active_table.mapper.maps_small(q) == remapped.maps_small(q));
        }
    }
    let stack_alloc_range = Page::range_of(stack_start, stack_end);
    proof {
        assert forall|q: Page|
            q.valid() && !covered(areas, areas.len() as int, q.number as int)
                && !stacks_area().maps_page(q.number as int) implies (
        #[trigger] active_table.mapper.lookup(q)).is_none() by {
            assert(remapped.lookup(q).is_none());
        }
        assert(frame_allocator.exclusive());
        assert(stack_alloc_range.start.number == stacks_area().first_page());
        assert(stack_alloc_range.end.number == stacks_area().end_page() - 1);
    }
    Ok(
        Memory {
            frame_allocator: Some(frame_allocator),
            stack_allocator: Some(StackAllocator::new(stack_alloc_range)),
            active_table,
        },
    )
}

/// The pages that are kept for kernel stacks belong to no area of the
/// kernel: they lie below the kernel window and above the lower half of the
/// address space.
pub proof fn lemma_stacks_lie_apart(sections: Seq<KernelSection>, boot_start: u64, boot_end: u64)
    requires
        forall|i: int|
            0 <= i < sections.len() && sections[i].allocated ==> (#[trigger] sections[i]).loadable(),
        boot_start < boot_end <= 0x0000_8000_0000_0000,
    ensures
        stacks_area().mappable(),
        forall|k: int, n: int|
            #![trigger section_areas(sections, sections.len() as int).push(vga_area()).push(boot_info_area(boot_start, boot_end))[k].maps_page(n)]
            0 <= k < section_areas(sections, sections.len() as int).len() + 2 && stacks_area().maps_page(
                n,
            ) ==> !section_areas(sections, sections.len() as int).push(vga_area()).push(
                boot_info_area(boot_start, boot_end),
            )[k].maps_page(n),
{
    let kernel = section_areas(sections, sections.len() as int);
    lemma_section_areas_start_in_window(sections, sections.len() as int);
    lemma_table_flags();
}

/// Every area of a section starts in the kernel window.
pub proof fn lemma_section_areas_start_in_window(sections: Seq<KernelSection>, n: int)
    requires
        0 <= n <= sections.len(),
        forall|i: int|
            0 <= i < sections.len() && sections[i].allocated ==> (#[trigger] sections[i]).loadable(),
    ensures
        forall|k: int|
            0 <= k < section_areas(sections, n).len() ==> (#[trigger] section_areas(
                sections,
                n,
            )[k]).start_addr >= KERNEL_OFFSET,
    decreases n,
{
    if n > 0 {
        lemma_section_areas_start_in_window(sections, n - 1);
    }
}

} // verus!
