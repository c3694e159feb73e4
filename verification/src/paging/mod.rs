//! The four-level page table.

use vstd::prelude::*;
use crate::memory::address::VirtualAddress;

pub mod entry;
pub mod mapper;
pub mod table;
pub mod temporary_page;

pub use self::entry::{Entry, EntryFlags, Mapping};
pub use self::mapper::{Mapper, MapperFlush, MapperFlushAll};
pub use self::table::{MapError, Table};
pub use self::temporary_page::TemporaryPage;
use crate::memory::address::PAddr;
use crate::memory::frame::{Frame, FrameAllocator};

verus! {

/// The number of entries of a table.
pub const ENTRY_COUNT: usize = 512;

/// One page of virtual memory, named by its number: its first byte's
/// virtual address divided by the page size.
#[derive(Debug, Clone, Copy, PartialEq, Eq, Structural, PartialOrd, Ord)]
pub struct Page {
    pub number: u64,
}

/// Bits 47 to 63 of the address are all equal.
pub open spec fn is_canonical(address: u64) -> bool {
    address < 0x0000_8000_0000_0000 || address >= 0xffff_8000_0000_0000
}

impl Page {
    /// The page's addresses are canonical.
    pub open spec fn valid(&self) -> bool {
        self.number < 0x0000_0008_0000_0000 || (0x000f_fff8_0000_0000 <= self.number
            <= 0x000f_ffff_ffff_ffff)
    }

    /// The index of the page in the table of the given level, from 4 for
    /// the top-level table down to 1 for the leaf table.
    pub open spec fn index(&self, level: int) -> int {
        if level == 4 {
            ((self.number >> 27) & 0o777) as int
        } else if level == 3 {
            ((self.number >> 18) & 0o777) as int
        } else if level == 2 {
            ((self.number >> 9) & 0o777) as int
        } else {
            (self.number & 0o777) as int
        }
    }

    /// The page that holds the byte at `address`.
    pub fn containing_address(address: VirtualAddress) -> (page: Page)
        requires
            is_canonical(address),
        ensures
            page.number == address / 4096,
            page.valid(),
    {
        Page { number: address / 4096 }
    }

    /// The virtual address of the page's first byte.
    pub fn start_address(&self) -> (address: VirtualAddress)
        requires
            self.valid(),
        ensures
            address == self.number * 4096,
            is_canonical(address),
    {
        self.number * 4096
    }

    /// The page's index in the top-level table.
    pub fn p4_index(&self) -> (index: usize)
        ensures
            index == self.index(4),
            index < 512,
    {
        proof {
            lemma_index_in_range(*self, 4);
        }
        ((self.number >> 27) & 0o777) as usize
    }

    /// The page's index in the table of level 3.
    pub fn p3_index(&self) -> (index: usize)
        ensures
            index == self.index(3),
            index < 512,
    {
        proof {
            lemma_index_in_range(*self, 3);
        }
        ((self.number >> 18) & 0o777) as usize
    }

    /// The page's index in the table of level 2.
    pub fn p2_index(&self) -> (index: usize)
        ensures
            index == self.index(2),
            index < 512,
    {
        proof {
            lemma_index_in_range(*self, 2);
        }
        ((self.number >> 9) & 0o777) as usize
    }

    /// The page's index in the leaf table.
    pub fn p1_index(&self) -> (index: usize)
        ensures
            index == self.index(1),
            index < 512,
    {
        proof {
            lemma_index_in_range(*self, 1);
        }
        (self.number & 0o777) as usize
    }

    /// The pages from `start` to `end`, both included, in rising order.
    pub fn range_inclusive(start: Page, end: Page) -> (iter: PageIter)
        ensures
            iter.start == start,
            iter.end == end,
    {
        PageIter { start: start, end: end }
    }

    /// The pages that hold the bytes from `begin` up to, not including,
    /// `end`, in rising order.
    pub fn range_of(begin: VirtualAddress, end: VirtualAddress) -> (iter: PageIter)
        requires
            begin <= end,
            is_canonical(begin),
            begin < end ==> is_canonical((end - 1) as u64),
        ensures
            begin < end ==> iter.start.number == begin / 4096 && iter.end.number == (end - 1)
                / 4096 && iter.start.valid() && iter.end.valid() && iter.start.number
                <= iter.end.number,
            begin == end ==> iter.remaining().len() == 0,
    {
        if begin < end {
            PageIter { start: Page::containing_address(begin), end: Page::containing_address(end - 1) }
        } else {
            PageIter { start: Page { number: 1 }, end: Page { number: 0 } }
        }
    }
}

/// The index of a page at any level is below 512.
pub proof fn lemma_index_in_range(page: Page, level: int)
    ensures
        0 <= page.index(level) < 512,
{
    let n = page.number;
    assert((n >> 27) & 0o777 < 512 && (n >> 18) & 0o777 < 512 && (n >> 9) & 0o777 < 512 && n & 0o777
        < 512) by (bit_vector);
}

/// The page of the address `0xcafebabe`, which serves as the temporary
/// page, and the page of the interrupt controller lie in the first
/// top-level slot.
pub proof fn lemma_fixed_pages()
    ensures
        0xcafe_babeu64 / 4096 == 0xcafeb,
        (Page { number: 0xcafeb }).index(4) == 0,
        (Page { number: 0xfee00 }).index(4) == 0,
        (Page { number: 0xcafeb }).valid(),
        (Page { number: 0xfee00 }).valid(),
{
    assert(0xcafe_babeu64 / 4096 == 0xcafeb && (0xcafebu64 >> 27) & 0o777 == 0 && (0xfee00u64 >> 27)
        & 0o777 == 0) by (bit_vector);
}

/// Two valid pages with the same four indices are the same page.
pub proof fn lemma_indices_name_the_page(a: Page, b: Page)
    requires
        a.valid(),
        b.valid(),
        a.index(4) == b.index(4),
        a.index(3) == b.index(3),
        a.index(2) == b.index(2),
        a.index(1) == b.index(1),
    ensures
        a == b,
{
    let x = a.number;
    let y = b.number;
    assert((x < 0x0000_0008_0000_0000 || (0x000f_fff8_0000_0000 <= x <= 0x000f_ffff_ffff_ffff))
        && (y < 0x0000_0008_0000_0000 || (0x000f_fff8_0000_0000 <= y <= 0x000f_ffff_ffff_ffff))
        && (x >> 27) & 0o777 == (y >> 27) & 0o777 && (x >> 18) & 0o777 == (y >> 18) & 0o777 && (x
        >> 9) & 0o777 == (y >> 9) & 0o777 && x & 0o777 == y & 0o777 ==> x == y) by (bit_vector);
}

/// A run of pages that is walked from its first to its last.
#[derive(Clone, Copy)]
pub struct PageIter {
    pub start: Page,
    pub end: Page,
}

impl PageIter {
    /// The page numbers still to come.
    pub open spec fn remaining(&self) -> Seq<u64> {
        if self.start.number <= self.end.number {
            Seq::new(
                (self.end.number - self.start.number + 1) as nat,
                |i: int| (self.start.number + i) as u64,
            )
        } else {
            Seq::empty()
        }
    }

    /// Hands out the next page of the run, or `None` once the run is used
    /// up. A run that ends at the largest `u64` can never be walked past its
    /// end, so it is left out.
    pub fn next(&mut self) -> (item: Option<Page>)
        requires
            old(self).end.number < u64::MAX,
        ensures
            final(self).end == old(self).end,
            old(self).remaining().len() == 0 ==> item.is_none() && *final(self) == *old(self),
            old(self).remaining().len() > 0 ==> item == Some(Page { number: old(self).remaining()[0] })
                && final(self).remaining() == old(self).remaining().drop_first(),
    {
        if self.start.number <= self.end.number {
            let page = self.start;
            self.start.number += 1;
            assert(self.remaining() =~= old(self).remaining().drop_first());
            Some(page)
        } else {
            None
        }
    }
}

/// Something that only the processor can do and that has to follow what
/// was done to the tables here.
#[derive(Debug, Clone, Copy, PartialEq, Eq, Structural)]
pub enum HardwareOp {
    /// Flush the page that starts at this virtual address from the
    /// translation cache.
    FlushPage(VirtualAddress),
    /// Flush the whole translation cache.
    FlushAll,
    /// Make the table in the frame at this physical address the root of
    /// translation.
    LoadRoot(PAddr),
}

/// The hierarchy of page tables that the processor translates with.
pub struct ActivePageTable {
    pub mapper: Mapper,
    pub p4_frame: Frame,
    pub pending: Vec<HardwareOp>,
}

impl ActivePageTable {
    /// The frame of the top-level table.
    pub open spec fn spec_p4_frame(&self) -> Frame {
        self.p4_frame
    }

    /// What the processor still has to do, the oldest first.
    pub open spec fn pending(&self) -> Seq<HardwareOp> {
        self.pending@
    }

    /// The loaded hierarchy is well formed.
    pub open spec fn wf(&self) -> bool {
        self.mapper.wf() && self.spec_p4_frame().valid()
    }

    /// Takes over the hierarchy below `p4`, whose top-level table lies in
    /// `p4_frame`, as the loaded one.
    pub fn new(p4: Table, p4_frame: Frame) -> (table: ActivePageTable)
        requires
            p4.wf(),
            p4.level() == 4,
            p4_frame.valid(),
        ensures
            table.wf(),
            table.mapper.spec_p4() == p4,
            table.mapper.stale() == Set::<Page>::empty(),
            table.spec_p4_frame() == p4_frame,
            table.pending() == Seq::<HardwareOp>::empty(),
    {
        ActivePageTable { mapper: Mapper::new(p4), p4_frame, pending: Vec::new() }
    }

    /// Asks for `page` to be flushed from the translation cache.
    pub fn flush(&mut self, page: Page)
        requires
            page.valid(),
        ensures
            final(self).mapper.spec_p4() == old(self).mapper.spec_p4(),
            final(self).mapper.stale() == old(self).mapper.stale().remove(page),
            final(self).spec_p4_frame() == old(self).spec_p4_frame(),
            final(self).pending() == old(self).pending().push(
                HardwareOp::FlushPage((page.number * 4096) as u64),
            ),
    {
        self.pending.push(HardwareOp::FlushPage(page.start_address()));
        self.mapper.note_flush(page);
    }

    /// Asks for the whole translation cache to be flushed.
    pub fn flush_all(&mut self)
        ensures
            final(self).mapper.spec_p4() == old(self).mapper.spec_p4(),
            final(self).mapper.stale() == Set::<Page>::empty(),
            final(self).spec_p4_frame() == old(self).spec_p4_frame(),
            final(self).pending() == old(self).pending().push(HardwareOp::FlushAll),
    {
        self.pending.push(HardwareOp::FlushAll);
        self.mapper.note_flush_all();
    }

    /// The physical address of the top-level table.
    pub fn address(&self) -> (address: u64)
        requires
            self.wf(),
        ensures
            address == self.spec_p4_frame().number * 4096,
    {
        self.p4_frame.start_address().get()
    }

    /// Makes `new_table` the loaded hierarchy and hands back the one that
    /// was loaded. Loading the root empties the translation cache.
    pub fn switch(&mut self, new_table: InactivePageTable) -> (old_table: InactivePageTable)
        requires
            old(self).wf(),
            new_table.wf(),
        ensures
            final(self).wf(),
            final(self).mapper.spec_p4() == new_table.table,
            final(self).p4_frame == new_table.p4_frame,
            old_table.table == old(self).mapper.spec_p4(),
            old_table.p4_frame == old(self).p4_frame,
            old_table.wf(),
            final(self).mapper.stale() == Set::<Page>::empty(),
            final(self).pending@ == old(self).pending@.push(
                HardwareOp::LoadRoot(PAddr((new_table.p4_frame.number * 4096) as u64)),
            ),
    {
        let InactivePageTable { p4_frame, table } = new_table;
        let previous = self.mapper.replace_p4(table);
        self.pending.push(HardwareOp::LoadRoot(p4_frame.start_address()));
        let mut frame = p4_frame;
        core::mem::swap(&mut self.p4_frame, &mut frame);
        self.mapper.note_flush_all();
        InactivePageTable { p4_frame: frame, table: previous }
    }

    /// Starts to edit `table`, which is not loaded, through this one.
    ///
    /// The temporary page is mapped to the frame of the loaded top-level
    /// table, so that it stays in reach; the slot of the recursive mapping
    /// of the loaded table is pointed to the top-level table of `table`; and
    /// the translation cache is flushed. From then on the mapper of this
    /// table edits the hierarchy of `table`, until `with_finish` is called;
    /// `table` keeps the loaded hierarchy meanwhile.
    ///
    /// The call fails, and changes no mapping, where the temporary page
    /// cannot be mapped for want of frames.
    pub fn with_start(&mut self, table: &mut InactivePageTable, temporary_page: &mut TemporaryPage) -> (result:
        Result<(), MapError>)
        requires
            old(self).wf(),
            old(table).wf(),
            old(temporary_page).wf(),
            old(self).mapper.lookup(old(temporary_page).page()).is_none(),
        ensures
            final(self).wf(),
            final(table).wf(),
            final(temporary_page).wf(),
            final(temporary_page).page() == old(temporary_page).page(),
            final(self).p4_frame == old(self).p4_frame,
            final(table).p4_frame == old(table).p4_frame,
            match result {
                Ok(()) => {
                    &&& final(self).mapper.spec_p4() == old(table).table
                    &&& final(self).mapper.stale() == Set::<Page>::empty()
                    &&& final(table).table.maps_small(old(temporary_page).page())
                    &&& final(table).table.recursive_frame() == old(table).p4_frame.number
                    &&& forall|q: Page|
                        q.valid() && q != old(temporary_page).page() ==> #[trigger] final(table).table.lookup(q) == old(self).mapper.lookup(q)
                },
                Err(e) => {
                    &&& e == MapError::OutOfMemory
                    &&& final(table).table == old(table).table
                    &&& forall|q: Page|
                        q.valid() ==> #[trigger] final(self).mapper.lookup(q) == old(self).mapper.lookup(q)
                    &&& final(self).mapper.stale() == old(self).mapper.stale()
                    &&& final(self).pending@ == old(self).pending@
                },
            },
            // The temporary page is flushed when it is mapped, and the whole
            // translation cache once the recursive slot points elsewhere.
            result is Ok ==> final(self).pending@ == old(self).pending@.push(
                HardwareOp::FlushPage((old(temporary_page).page().number * 4096) as u64),
            ).push(HardwareOp::FlushAll),
            // No frame is needed where the tables for the temporary page are
            // there; else the page's own allocator has to hold one for each
            // that is missing.
            old(self).mapper.has_tables_for(old(temporary_page).page()) ==> result is Ok,
            old(temporary_page).allocator().promises(old(self).mapper.missing_tables(old(temporary_page).page()))
                ==> result is Ok,
    {
        let backup = self.p4_frame.clone();
        match temporary_page.map(backup, self) {
            Ok(_) => {},
            Err(e) => {
                return Err(e);
            },
        }
        let ghost mapped = self.mapper;
        // Overwrite the recursive mapping.
        let mut live = self.mapper.replace_p4(Table::new(4));
        live.set_recursive_entry(table.p4_frame.clone());
        self.flush_all();
        // From here on the mapper reaches the tables of `table`.
        let mut inactive = Table::new(4);
        core::mem::swap(&mut table.table, &mut inactive);
        let _ = self.mapper.replace_p4(inactive);
        table.table = live;
        proof {
            assert forall|q: Page|
                q.valid() && q != temporary_page.page() implies #[trigger] table.table.lookup(q)
                == old(self).mapper.lookup(q) by {
                assert(mapped.lookup(q) == old(self).mapper.lookup(q));
            }
        }
        Ok(())
    }

    /// Ends the editing that `with_start` began: `table` gets back its
    /// hierarchy as the mapper left it, and this table the loaded one. The
    /// slot of the recursive mapping is pointed back to the loaded top-level
    /// table, the translation cache is flushed, and the temporary page is
    /// unmapped.
    pub fn with_finish(&mut self, table: &mut InactivePageTable, temporary_page: &mut TemporaryPage)
        requires
            old(self).wf(),
            old(table).wf(),
            old(temporary_page).wf(),
            old(table).table.maps_small(old(temporary_page).page()),
        ensures
            final(self).wf(),
            final(table).wf(),
            final(temporary_page).wf(),
            final(temporary_page).page() == old(temporary_page).page(),
            final(self).p4_frame == old(self).p4_frame,
            final(table).p4_frame == old(table).p4_frame,
            final(table).table == old(self).mapper.spec_p4(),
            final(self).mapper.spec_p4().recursive_frame() == old(self).p4_frame.number,
            final(self).mapper.stale() == Set::<Page>::empty(),
            final(self).mapper.lookup(old(temporary_page).page()).is_none(),
            forall|q: Page|
                q.valid() && q != old(temporary_page).page() ==> #[trigger] final(self).mapper.lookup(q) == old(table).table.lookup(q),
            // The whole translation cache is flushed once the recursive slot
            // points back, and the temporary page when it is unmapped.
            final(self).pending@ == old(self).pending@.push(HardwareOp::FlushAll).push(
                HardwareOp::FlushPage((old(temporary_page).page().number * 4096) as u64),
            ),
            final(self).mapper.has_tables_for(old(temporary_page).page()),
    {
        let mut live = Table::new(4);
        core::mem::swap(&mut table.table, &mut live);
        // Restore the recursive mapping to the loaded top-level table.
        live.set_recursive_entry(self.p4_frame.clone());
        let edited = self.mapper.replace_p4(live);
        table.table = edited;
        self.flush_all();
        let ghost restored = self.mapper;
        temporary_page.unmap(self);
        proof {
            assert(Set::<Page>::empty().remove(temporary_page.page()) =~= Set::<Page>::empty());
            assert forall|q: Page|
                q.valid() && q != temporary_page.page() implies #[trigger] self.mapper.lookup(q)
                == old(table).table.lookup(q) by {
                assert(restored.lookup(q) == old(table).table.lookup(q));
            }
        }
    }

    /// Hands over what the processor still has to do, the oldest first,
    /// and starts a new list.
    pub fn take_pending(&mut self) -> (ops: Vec<HardwareOp>)
        ensures
            ops@ == old(self).pending(),
            final(self).pending() == Seq::<HardwareOp>::empty(),
            final(self).mapper == old(self).mapper,
            final(self).spec_p4_frame() == old(self).spec_p4_frame(),
    {
        let mut ops: Vec<HardwareOp> = Vec::new();
        core::mem::swap(&mut self.pending, &mut ops);
        ops
    }
}

/// A hierarchy of page tables that is not loaded: the frame of its
/// top-level table and the tables themselves.
pub struct InactivePageTable {
    pub p4_frame: Frame,
    pub table: Table,
}

impl InactivePageTable {
    /// The hierarchy is well formed: it starts with a top-level table whose
    /// last entry points back to the table's own frame.
    pub open spec fn wf(&self) -> bool {
        &&& self.table.wf()
        &&& self.table.level() == 4
        &&& self.p4_frame.valid()
    }

    /// A new hierarchy whose top-level table lies in `frame`: the table is
    /// cleared, and its last entry points back to `frame`.
    ///
    /// The frame is shown at the temporary page while this is done; the
    /// loaded table is left as it was. The call fails, and changes no
    /// mapping, where the temporary page cannot be mapped for want of
    /// frames.
    pub fn new(frame: Frame, active_table: &mut ActivePageTable, temporary_page: &mut TemporaryPage) -> (result:
        Result<InactivePageTable, MapError>)
        requires
            frame.valid(),
            old(active_table).wf(),
            old(temporary_page).wf(),
            old(active_table).mapper.lookup(old(temporary_page).page()).is_none(),
        ensures
            final(active_table).wf(),
            final(temporary_page).wf(),
            final(temporary_page).page() == old(temporary_page).page(),
            final(active_table).p4_frame == old(active_table).p4_frame,
            forall|q: Page|
                q.valid() ==> #[trigger] final(active_table).mapper.lookup(q) == old(active_table).mapper.lookup(q),
            match result {
                Ok(table) => {
                    &&& table.wf()
                    &&& table.p4_frame == frame
                    &&& table.table.recursive_frame() == frame.number
                    &&& forall|q: Page| (#[trigger] table.table.lookup(q)).is_none()
                    // Every entry but the last is cleared, no table lies
                    // below, and the last entry points back to the frame as
                    // present and writable.
                    &&& forall|i: int| 0 <= i < 511 ==> #[trigger] table.table.entries()[i] == Entry(0)
                    &&& forall|i: int| 0 <= i < 512 ==> (#[trigger] table.table.child(i)).is_none()
                    &&& table.table.entries()[511].spec_flags() == (EntryFlags {
                        bits: entry::PRESENT | entry::WRITABLE,
                    })
                    &&& table.table.entries()[511].spec_counter() == 0
                    &&& final(active_table).mapper.stale() == old(active_table).mapper.stale().remove(
                        old(temporary_page).page(),
                    )
                    // The temporary page was flushed when it was mapped and
                    // when it was unmapped again; its tables stay.
                    &&& final(active_table).pending@ == old(active_table).pending@.push(
                        HardwareOp::FlushPage((old(temporary_page).page().number * 4096) as u64),
                    ).push(HardwareOp::FlushPage((old(temporary_page).page().number * 4096) as u64))
                    &&& final(active_table).mapper.has_tables_for(old(temporary_page).page())
                },
                Err(e) => {
                    &&& e == MapError::OutOfMemory
                    &&& final(active_table).mapper.stale() == old(active_table).mapper.stale()
                    &&& final(active_table).pending@ == old(active_table).pending@
                },
            },
            // No frame is needed where the tables for the temporary page are
            // there; else the page's own allocator has to hold one for each
            // that is missing.
            old(active_table).mapper.has_tables_for(old(temporary_page).page()) ==> result is Ok,
            old(temporary_page).allocator().promises(
                old(active_table).mapper.missing_tables(old(temporary_page).page()),
            ) ==> result is Ok,
    {
        match temporary_page.map(frame.clone(), active_table) {
            Ok(_) => {},
            Err(e) => {
                return Err(e);
            },
        }
        let ghost mapped = active_table.mapper;
        // Now the table can be cleared and its recursive mapping set up.
        let mut table = Table::of_level::<table::Level4>();
        let ghost cleared = table;
        proof {
            entry::lemma_zero_entry();
        }
        table.set_recursive_entry(frame.clone());
        temporary_page.unmap(active_table);
        proof {
            let page = temporary_page.page();
            assert(old(active_table).mapper.stale().remove(page).remove(page) =~= old(active_table).mapper.stale().remove(page));
            assert forall|q: Page| q.valid() implies #[trigger] active_table.mapper.lookup(q) == old(active_table).mapper.lookup(q) by {
                if q != page {
                    assert(mapped.lookup(q) == old(active_table).mapper.lookup(q));
                }
            }
        }
        Ok(InactivePageTable { p4_frame: frame, table })
    }
}

} // verus!
