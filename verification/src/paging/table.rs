//! One table of the page-table hierarchy, together with the tables below it.
//!
//! A table has 512 entries. A present entry of a table above the leaf level
//! points to the frame of a table of the next lower level, which the table
//! holds as its child, or, where the entry is marked huge, to a block of
//! memory that it maps as a whole. The entries of a leaf table point to the
//! frames that pages are mapped to.

use vstd::prelude::*;
use crate::memory::frame::{Frame, FrameAllocator};
use crate::paging::entry::{
    lemma_unused_entry, lemma_zero_entry, Entry, EntryFlags, Mapping, ADDRESS_MASK, ALL_FLAGS,
    HUGE_PAGE, PRESENT, WRITABLE,
};
use crate::paging::{lemma_index_in_range, Page, ENTRY_COUNT};

verus! {

/// The index of the top-level entry that is kept for the recursive mapping.
pub const RECURSIVE_INDEX: usize = 511;

/// Why a mapping could not be made.
#[derive(Debug, Clone, Copy, PartialEq, Eq, Structural)]
pub enum MapError {
    /// No frame was left for a table that had to be created.
    OutOfMemory,
    /// The page is mapped already.
    RangeInUse,
}

/// The virtual address at which the recursive mapping shows the loaded
/// top-level table.
pub const P4_ADDRESS: u64 = 0xffff_ffff_ffff_f000;

/// The virtual address at which the recursive mapping shows the table that
/// the entry `index` of the table at `table_address` points to.
pub open spec fn recursive_child_address(table_address: u64, index: usize) -> u64 {
    (table_address << 9) | ((index as u64) << 12)
}

/// The virtual address at which the recursive mapping shows the table that
/// the entry `index` of the table at `table_address` points to, where the
/// entry, whose flags are `entry_flags`, points to a table: where it is
/// present and not huge.
pub fn next_table_address(table_address: u64, index: usize, entry_flags: EntryFlags) -> (address:
    Option<u64>)
    requires
        index < 512,
    ensures
        address == if entry_flags.is_present() && !entry_flags.is_huge() {
            Some(recursive_child_address(table_address, index))
        } else {
            None
        },
{
    proof {
        lemma_flag_tests(entry_flags);
    }
    if entry_flags.contains(EntryFlags { bits: PRESENT }) && !entry_flags.contains(
        EntryFlags { bits: HUGE_PAGE },
    ) {
        Some((table_address << 9) | ((index as u64) << 12))
    } else {
        None
    }
}

/// The recursive mapping moves every table one level down: where a table
/// that points to tables is shown at an address that goes through the
/// recursive slot twice and then through the entries `c` and `d`, the table
/// that its entry `index` points to is shown at the address that goes
/// through the recursive slot once and then through `c`, `d` and `index`.
/// The address of the top-level table goes through the recursive slot four
/// times.
pub proof fn lemma_recursive_addresses(table_address: u64, index: usize)
    requires
        index < 512,
        table_address >= 0xffff_ffff_c000_0000,
        table_address % 4096 == 0,
    ensures
        ({
            let page = Page { number: table_address / 4096 };
            let child = Page { number: recursive_child_address(table_address, index) / 4096 };
            &&& page.index(4) == RECURSIVE_INDEX
            &&& page.index(3) == RECURSIVE_INDEX
            &&& child.index(4) == RECURSIVE_INDEX
            &&& child.index(3) == page.index(2)
            &&& child.index(2) == page.index(1)
            &&& child.index(1) == index
            &&& recursive_child_address(table_address, index) >= 0xffff_8000_0000_0000
            &&& recursive_child_address(table_address, index) % 4096 == 0
        }),
        (Page { number: P4_ADDRESS / 4096 }).index(4) == RECURSIVE_INDEX,
        (Page { number: P4_ADDRESS / 4096 }).index(3) == RECURSIVE_INDEX,
        (Page { number: P4_ADDRESS / 4096 }).index(2) == RECURSIVE_INDEX,
        (Page { number: P4_ADDRESS / 4096 }).index(1) == RECURSIVE_INDEX,
{
    let a = table_address;
    let i = index as u64;
    assert(i < 512 && a >= 0xffff_ffff_c000_0000 && a % 4096 == 0 ==> {
        let c = (a << 9) | (i << 12);
        &&& ((a / 4096) >> 27) & 0o777 == 511
        &&& ((a / 4096) >> 18) & 0o777 == 511
        &&& ((c / 4096) >> 27) & 0o777 == 511
        &&& ((c / 4096) >> 18) & 0o777 == ((a / 4096) >> 9) & 0o777
        &&& ((c / 4096) >> 9) & 0o777 == (a / 4096) & 0o777
        &&& (c / 4096) & 0o777 == i
        &&& c >= 0xffff_8000_0000_0000
        &&& c % 4096 == 0
    }) by (bit_vector);
    assert({
        let p = 0xffff_ffff_ffff_f000u64 / 4096;
        (p >> 27) & 0o777 == 511 && (p >> 18) & 0o777 == 511 && (p >> 9) & 0o777 == 511 && p & 0o777
            == 511
    }) by (bit_vector);
}

/// A level of the hierarchy, as a type.
pub trait TableLevel {
    /// The number of the level: 4 for the top-level table, 1 for a leaf.
    spec fn spec_number() -> u8;

    /// The number of the level.
    fn number() -> (number: u8)
        ensures
            number == Self::spec_number(),
            1 <= number <= 4,
    ;
}

/// The level of the top-level table.
pub enum Level4 {
    Level,
}

/// The level of the tables that map blocks of 1 GiB.
pub enum Level3 {
    Level,
}

/// The level of the tables that map blocks of 2 MiB.
pub enum Level2 {
    Level,
}

/// The level of the leaf tables.
pub enum Level1 {
    Level,
}

impl TableLevel for Level4 {
    open spec fn spec_number() -> u8 {
        4
    }

    fn number() -> (number: u8) {
        4
    }
}

impl TableLevel for Level3 {
    open spec fn spec_number() -> u8 {
        3
    }

    fn number() -> (number: u8) {
        3
    }
}

impl TableLevel for Level2 {
    open spec fn spec_number() -> u8 {
        2
    }

    fn number() -> (number: u8) {
        2
    }
}

impl TableLevel for Level1 {
    open spec fn spec_number() -> u8 {
        1
    }

    fn number() -> (number: u8) {
        1
    }
}

/// A level whose tables point to tables of the next lower level.
pub trait HierarchicalLevel: TableLevel {
    type NextLevel: TableLevel;

    /// The next level is one lower.
    proof fn lemma_next_level()
        ensures
            Self::NextLevel::spec_number() == Self::spec_number() - 1,
    ;
}

impl HierarchicalLevel for Level4 {
    type NextLevel = Level3;

    proof fn lemma_next_level() {
    }
}

impl HierarchicalLevel for Level3 {
    type NextLevel = Level2;

    proof fn lemma_next_level() {
    }
}

impl HierarchicalLevel for Level2 {
    type NextLevel = Level1;

    proof fn lemma_next_level() {
    }
}

/// The entry at `index` of a table of the given level counts as live: it is
/// in use and is not the slot of the recursive mapping.
pub open spec fn is_live(entry: Entry, level: int, index: int) -> bool {
    !entry.spec_is_unused() && !(level == 4 && index == RECURSIVE_INDEX)
}

/// The number of live entries among the first `n`.
pub open spec fn live_count(entries: Seq<Entry>, level: int, n: nat) -> nat
    decreases n,
{
    if n == 0 {
        0
    } else {
        live_count(entries, level, (n - 1) as nat) + if is_live(entries[n - 1], level, n - 1) {
            1nat
        } else {
            0nat
        }
    }
}

/// The number of frames by which a page lies behind the start of the huge
/// block that an entry of the given level maps.
pub open spec fn huge_offset(level: int, page: Page) -> int {
    if level == 3 {
        page.index(2) * 512 + page.index(1)
    } else {
        page.index(1)
    }
}

/// The two pages have the same index at every level up to `level`.
pub open spec fn same_path(a: Page, b: Page, level: int) -> bool {
    forall|l: int| 1 <= l <= level ==> #[trigger] a.index(l) == b.index(l)
}

/// A table of the hierarchy and everything below it.
pub struct Table {
    level: u8,
    entries: Vec<Entry>,
    children: Vec<Option<Table>>,
}

impl Table {
    /// The level of the table: 4 for the top-level table, 1 for a leaf.
    pub closed spec fn level(&self) -> int {
        self.level as int
    }

    /// The entries of the table.
    pub closed spec fn entries(&self) -> Seq<Entry> {
        self.entries@
    }

    /// The table that the entry at `index` points to, where there is one.
    pub closed spec fn child(&self, index: int) -> Option<Table> {
        self.children@[index]
    }

    /// What the entry at `index` may hold in a table of this level.
    pub open spec fn entry_ok(&self, index: int) -> bool {
        let e = self.entries()[index];
        &&& e.clean()
        &&& e.spec_is_unused() || e.is_present()
        &&& self.child(index).is_some() <==> self.level() > 1 && e.is_present() && !e.is_huge() && !(
        self.level() == 4 && index == RECURSIVE_INDEX)
        &&& e.is_present() && e.is_huge() ==> self.level() != 4
        &&& e.is_present() && e.is_huge() && self.level() == 3 ==> e.frame_number() % 0x4_0000 == 0
        &&& e.is_present() && e.is_huge() && self.level() == 2 ==> e.frame_number() % 512 == 0
    }

    /// The table and all tables below it are well formed: every table has
    /// 512 entries, its children are the tables of the next level that its
    /// entries point to, and the counter in its first entry is the number of
    /// its live entries.
    pub closed spec fn wf(&self) -> bool
        decreases self.level(),
    {
        &&& 1 <= self.level <= 4
        &&& self.entries@.len() == 512
        &&& self.children@.len() == 512
        &&& forall|i: int| 0 <= i < 512 ==> self.entry_ok(i)
        &&& self.entries@[0].spec_counter() == live_count(self.entries@, self.level as int, 512)
        &&& forall|i: int|
            0 <= i < 512 ==> match #[trigger] self.children@[i] {
                Some(c) => c.level == self.level - 1 && c.wf(),
                None => true,
            }
    }

    /// What the hierarchy below this table says of `page`: the frame that it
    /// is mapped to and the flags of the mapping, or `None` where it is not
    /// mapped.
    ///
    /// The walk follows the page's index at each level. A present entry that
    /// is marked huge ends the walk and maps the page to the frame that lies
    /// as far into the huge block as the page's lower indices say.
    pub closed spec fn lookup(&self, page: Page) -> Option<Mapping>
        decreases self.level(),
    {
        let e = self.entries@[page.index(self.level as int)];
        if self.level <= 1 {
            e.mapping()
        } else if e.is_present() && e.is_huge() {
            Some(
                Mapping {
                    frame: Frame {
                        number: (e.frame_number() + huge_offset(self.level as int, page)) as u64,
                    },
                    flags: e.spec_flags(),
                },
            )
        } else {
            match self.children@[page.index(self.level as int)] {
                Some(c) => if c.level < self.level {
                    c.lookup(page)
                } else {
                    None
                },
                None => None,
            }
        }
    }

    /// A table of the level `L` with every entry cleared.
    pub fn of_level<L: TableLevel>() -> (table: Table)
        ensures
            table.wf(),
            table.level() == L::spec_number(),
            table.entries().len() == 512,
            forall|i: int| 0 <= i < 512 ==> #[trigger] table.entries()[i] == Entry(0),
            forall|i: int| 0 <= i < 512 ==> (#[trigger] table.child(i)).is_none(),
            forall|page: Page| (#[trigger] table.lookup(page)).is_none(),
            forall|page: Page| !#[trigger] table.maps_small(page),
            forall|page: Page| #[trigger] table.missing_tables(page) == table.level() - 1,
    {
        Table::new(L::number())
    }

    /// A table of the level below `L` with every entry cleared.
    pub fn of_next_level<L: HierarchicalLevel>() -> (table: Table)
        ensures
            table.wf(),
            table.level() == L::spec_number() - 1,
            table.entries().len() == 512,
            forall|i: int| 0 <= i < 512 ==> #[trigger] table.entries()[i] == Entry(0),
            forall|i: int| 0 <= i < 512 ==> (#[trigger] table.child(i)).is_none(),
            forall|page: Page| (#[trigger] table.lookup(page)).is_none(),
            forall|page: Page| !#[trigger] table.maps_small(page),
            forall|page: Page| #[trigger] table.missing_tables(page) == table.level() - 1,
    {
        proof {
            L::lemma_next_level();
        }
        Table::of_level::<L::NextLevel>()
    }

    /// A table of the given level with every entry cleared.
    pub fn new(level: u8) -> (table: Table)
        requires
            1 <= level <= 4,
        ensures
            table.wf(),
            table.level() == level,
            table.entries().len() == 512,
            forall|i: int| 0 <= i < 512 ==> #[trigger] table.entries()[i] == Entry(0),
            forall|i: int| 0 <= i < 512 ==> (#[trigger] table.child(i)).is_none(),
            forall|page: Page| (#[trigger] table.lookup(page)).is_none(),
            forall|page: Page| !#[trigger] table.maps_small(page),
            forall|page: Page| #[trigger] table.missing_tables(page) == table.level() - 1,
    {
        let mut entries: Vec<Entry> = Vec::new();
        let mut children: Vec<Option<Table>> = Vec::new();
        let mut i: usize = 0;
        while i < ENTRY_COUNT
            invariant
                i <= 512,
                entries@.len() == i,
                children@.len() == i,
                forall|j: int| 0 <= j < i ==> #[trigger] entries@[j] == Entry(0),
                forall|j: int| 0 <= j < i ==> (#[trigger] children@[j]).is_none(),
            decreases 512 - i,
        {
            entries.push(Entry::zero());
            children.push(None);
            i += 1;
        }
        let table = Table { level, entries, children };
        proof {
            lemma_zero_entry();
            lemma_live_count_bounds(table.entries@, level as int, 512);
            assert forall|page: Page| (#[trigger] table.lookup(page)).is_none() by {
                lemma_index_in_range(page, table.level as int);
            }
            assert forall|page: Page| !#[trigger] table.maps_small(page) by {
                lemma_index_in_range(page, table.level as int);
            }
            assert forall|page: Page| #[trigger] table.missing_tables(page) == table.level() - 1 by {
                lemma_index_in_range(page, table.level as int);
            }
        }
        table
    }
}

impl Table {
    /// The tables that a walk for `page` passes through below this one are
    /// all there.
    pub closed spec fn has_tables_for(&self, page: Page) -> bool
        decreases self.level(),
    {
        self.level <= 1 || match self.children@[page.index(self.level as int)] {
            Some(c) => c.level < self.level && c.has_tables_for(page),
            None => false,
        }
    }

    /// The number of tables that are missing below this one on the walk
    /// for `page`: as many frames are needed to map it.
    pub closed spec fn missing_tables(&self, page: Page) -> nat
        decreases self.level(),
    {
        if self.level <= 1 {
            0
        } else {
            match self.children@[page.index(self.level as int)] {
                Some(c) => if c.level < self.level {
                    c.missing_tables(page)
                } else {
                    0
                },
                None => (self.level - 1) as nat,
            }
        }
    }

    /// No table is missing where the tables for the walk are there, and
    /// the other way round; never more than three are.
    pub proof fn lemma_missing_tables(&self, page: Page)
        requires
            self.wf(),
        ensures
            self.has_tables_for(page) == (self.missing_tables(page) == 0),
            self.missing_tables(page) <= self.level() - 1,
        decreases self.level(),
    {
        if self.level > 1 {
            lemma_index_in_range(page, self.level());
            let i = page.index(self.level());
            if self.children@[i] is Some {
                self.children@[i]->0.lemma_missing_tables(page);
            }
        }
    }

    /// The value of the counter that the first entry holds.
    pub closed spec fn spec_entry_count(&self) -> u64 {
        self.entries@[0].spec_counter()
    }

    /// The level of the table.
    pub fn get_level(&self) -> (level: u8)
        ensures
            level == self.level(),
    {
        self.level
    }

    /// The entry at `index`.
    pub fn entry(&self, index: usize) -> (entry: Entry)
        requires
            self.wf(),
            index < 512,
        ensures
            entry == self.entries()[index as int],
    {
        self.entries[index]
    }

    /// Whether the counter says that no entry of the table is live.
    pub fn is_unused(&self) -> (unused: bool)
        requires
            self.wf(),
        ensures
            unused == (self.spec_entry_count() == 0),
            unused ==> forall|page: Page|
                (self.level() == 4 ==> page.index(4) != RECURSIVE_INDEX) ==> (#[trigger] self.lookup(
                    page,
                )).is_none(),
            unused ==> forall|page: Page| !#[trigger] self.maps_small(page),
    {
        let unused = !(self.entry_count() > 0);
        proof {
            if unused {
                lemma_live_count_bounds(self.entries@, self.level as int, 512);
                assert forall|page: Page|
                    (self.level() == 4 ==> page.index(4) != RECURSIVE_INDEX) implies (
                #[trigger] self.lookup(page)).is_none() by {
                    lemma_index_in_range(page, self.level as int);
                    let i = page.index(self.level as int);
                    assert(!is_live(self.entries@[i], self.level as int, i));
                    assert(self.entry_ok(i));
                    lemma_unused_entry(self.entries@[i]);
                }
                assert forall|page: Page| !#[trigger] self.maps_small(page) by {
                    lemma_index_in_range(page, self.level as int);
                    let i = page.index(self.level as int);
                    assert(self.entry_ok(i));
                    if !(self.level == 4 && i == RECURSIVE_INDEX) {
                        assert(!is_live(self.entries@[i], self.level as int, i));
                        lemma_unused_entry(self.entries@[i]);
                    }
                }
            }
        }
        unused
    }

    /// Clears every entry and lets go of every table below.
    pub fn zero(&mut self)
        requires
            old(self).wf(),
        ensures
            final(self).wf(),
            final(self).level() == old(self).level(),
            forall|i: int| 0 <= i < 512 ==> #[trigger] final(self).entries()[i] == Entry(0),
            forall|i: int| 0 <= i < 512 ==> (#[trigger] final(self).child(i)).is_none(),
            final(self).spec_entry_count() == 0,
            forall|page: Page| (#[trigger] final(self).lookup(page)).is_none(),
            forall|page: Page| !#[trigger] final(self).maps_small(page),
    {
        let fresh = Table::new(self.level);
        *self = fresh;
        proof {
            lemma_zero_entry();
            assert(self.entries()[0] == Entry(0));
            assert forall|i: int| 0 <= i < 512 implies (#[trigger] self.child(i)).is_none() by {
                assert(self.entry_ok(i));
            }
        }
    }

    /// Sets the counter in the first entry.
    fn set_entry_count(&mut self, count: u64)
        requires
            old(self).entries@.len() == 512,
            count <= crate::paging::entry::MAX_COUNTER,
        ensures
            final(self).level == old(self).level,
            final(self).children == old(self).children,
            final(self).entries@.len() == 512,
            final(self).entries@[0] == old(self).entries@[0].with_counter(count),
            forall|i: int| 1 <= i < 512 ==> final(self).entries@[i] == old(self).entries@[i],
            final(self).entries@[0].spec_counter() == count,
            final(self).entries@[0].clean() == old(self).entries@[0].clean(),
            final(self).entries@[0].frame_number() == old(self).entries@[0].frame_number(),
            final(self).entries@[0].spec_flags() == old(self).entries@[0].spec_flags(),
            final(self).entries@[0].spec_is_unused() == old(self).entries@[0].spec_is_unused(),
    {
        let mut first = self.entries[0];
        first.set_counter_bits(count);
        self.entries[0] = first;
    }

    /// The counter in the first entry.
    fn entry_count(&self) -> (count: u64)
        requires
            self.entries@.len() == 512,
        ensures
            count == self.entries@[0].spec_counter(),
            count <= crate::paging::entry::MAX_COUNTER,
    {
        self.entries[0].counter_bits()
    }

    /// Adds one to the counter of live entries. The entries themselves stay
    /// as they are.
    pub fn increment_entry_count(&mut self)
        requires
            old(self).entries().len() == 512,
            old(self).spec_entry_count() < crate::paging::entry::MAX_COUNTER,
        ensures
            final(self).entries().len() == 512,
            final(self).entries()[0] == old(self).entries()[0].with_counter(
                (old(self).spec_entry_count() + 1) as u64,
            ),
            final(self).spec_entry_count() == old(self).spec_entry_count() + 1,
            final(self).level() == old(self).level(),
            forall|i: int| 0 <= i < 512 ==> final(self).child(i) == old(self).child(i),
            forall|i: int| 1 <= i < 512 ==> final(self).entries()[i] == old(self).entries()[i],
            final(self).entries()[0].mapping() == old(self).entries()[0].mapping(),
            final(self).entries()[0].spec_is_unused() == old(self).entries()[0].spec_is_unused(),
    {
        let current_count = self.entry_count();
        self.set_entry_count(current_count + 1);
    }

    /// Takes one from the counter of live entries. The entries themselves
    /// stay as they are.
    pub fn decrement_entry_count(&mut self)
        requires
            old(self).entries().len() == 512,
            old(self).spec_entry_count() > 0,
        ensures
            final(self).entries().len() == 512,
            final(self).entries()[0] == old(self).entries()[0].with_counter(
                (old(self).spec_entry_count() - 1) as u64,
            ),
            final(self).spec_entry_count() == old(self).spec_entry_count() - 1,
            final(self).level() == old(self).level(),
            forall|i: int| 0 <= i < 512 ==> final(self).child(i) == old(self).child(i),
            forall|i: int| 1 <= i < 512 ==> final(self).entries()[i] == old(self).entries()[i],
            final(self).entries()[0].mapping() == old(self).entries()[0].mapping(),
            final(self).entries()[0].spec_is_unused() == old(self).entries()[0].spec_is_unused(),
    {
        let current_count = self.entry_count();
        self.set_entry_count(current_count - 1);
    }

    /// The table that the entry at `index` points to, where there is one.
    pub fn next_table(&self, index: usize) -> (table: Option<&Table>)
        requires
            self.wf(),
            index < 512,
        ensures
            table.is_some() == self.child(index as int).is_some(),
            table matches Some(t) ==> Some(*t) == self.child(index as int) && t.wf() && t.level()
                == self.level() - 1,
            table.is_some() <==> self.level() > 1 && self.entries()[index as int].is_present()
                && !self.entries()[index as int].is_huge() && !(self.level() == 4 && index
                == RECURSIVE_INDEX),
    {
        assert(self.entry_ok(index as int));
        self.children[index].as_ref()
    }

    /// What the hierarchy below this table says of `page`.
    pub fn find(&self, page: Page) -> (mapping: Option<Mapping>)
        requires
            self.wf(),
        ensures
            mapping == self.lookup(page),
            mapping matches Some(m) ==> m.flags.valid(),
            self.maps_small(page) ==> mapping.is_some() && mapping.unwrap().frame.valid(),
        decreases self.level(),
    {
        let index = self.index_of(page);
        let entry = self.entries[index];
        proof {
            assert(self.entry_ok(index as int));
            if self.maps_small(page) {
                self.lemma_small_is_mapped(page);
            }
        }
        if self.level == 1 {
            match entry.pointed_frame() {
                Some(frame) => Some(Mapping { frame, flags: entry.flags() }),
                None => None,
            }
        } else {
            let flags = entry.flags();
            match entry.pointed_frame() {
                Some(start) => {
                    if flags.contains(EntryFlags { bits: HUGE_PAGE }) {
                        proof {
                            lemma_flag_tests(flags);
                        }
                        let offset = if self.level == 3 {
                            (page.p2_index() * ENTRY_COUNT + page.p1_index()) as u64
                        } else {
                            page.p1_index() as u64
                        };
                        Some(Mapping { frame: Frame { number: start.number + offset }, flags })
                    } else {
                        proof {
                            lemma_flag_tests(flags);
                        }
                        match &self.children[index] {
                            Some(child) => child.find(page),
                            None => None,
                        }
                    }
                },
                None => {
                    None
                },
            }
        }
    }

    /// The index of `page` in this table.
    fn index_of(&self, page: Page) -> (index: usize)
        requires
            1 <= self.level <= 4,
        ensures
            index == page.index(self.level as int),
            index < 512,
    {
        if self.level == 4 {
            page.p4_index()
        } else if self.level == 3 {
            page.p3_index()
        } else if self.level == 2 {
            page.p2_index()
        } else {
            page.p1_index()
        }
    }
}

/// The mapping that `map_at` makes: to `frame`, with `flags` and the flag
/// that marks the entry as present.
pub open spec fn new_mapping(frame: Frame, flags: EntryFlags) -> Mapping {
    Mapping { frame, flags: EntryFlags { bits: flags.bits | PRESENT } }
}

/// The allocator `after` is the allocator `before` once the frames with the
/// numbers `frames` were given back to it, one after the other.
pub open spec fn gave_back_all<A: FrameAllocator>(before: A, after: A, frames: Seq<u64>) -> bool
    decreases frames.len(),
{
    if frames.len() == 0 {
        after == before
    } else {
        exists|middle: A| #[trigger]
            A::gave_back(before, middle, Frame { number: frames[0] }, 1) && gave_back_all(
                middle,
                after,
                frames.drop_first(),
            )
    }
}

/// Frames that are given back one after the other make up one giving back.
pub proof fn lemma_gave_back_one_more<A: FrameAllocator>(
    before: A,
    middle: A,
    after: A,
    frames: Seq<u64>,
    frame: u64,
)
    requires
        gave_back_all(before, middle, frames),
        A::gave_back(middle, after, Frame { number: frame }, 1),
    ensures
        gave_back_all(before, after, frames.push(frame)),
    decreases frames.len(),
{
    let all = frames.push(frame);
    if frames.len() == 0 {
        assert(all[0] == frame);
        assert(all.drop_first() =~= Seq::<u64>::empty());
        assert(gave_back_all(after, after, all.drop_first()));
        assert(A::gave_back(before, after, Frame { number: all[0] }, 1));
    } else {
        let first = choose|first: A| #[trigger]
            A::gave_back(before, first, Frame { number: frames[0] }, 1) && gave_back_all(
                first,
                middle,
                frames.drop_first(),
            );
        lemma_gave_back_one_more(first, middle, after, frames.drop_first(), frame);
        assert(all[0] == frames[0]);
        assert(all.drop_first() =~= frames.drop_first().push(frame));
        assert(A::gave_back(before, first, Frame { number: all[0] }, 1));
    }
}

impl Table {
    /// Makes sure that the entry at `index` points to a table.
    ///
    /// Where it does not yet, a frame is taken from `allocator`, the entry
    /// is pointed to it as present and writable, the counter of this table
    /// goes up, and a cleared table of the next lower level becomes the
    /// child. No page is mapped differently afterwards. The call fails only
    /// where a table is missing and the allocator has no frame.
    pub fn next_table_create<A: FrameAllocator>(&mut self, index: usize, allocator: &mut A) -> (result:
        Result<(), MapError>)
        requires
            old(self).wf(),
            index < 512,
            old(self).level() > 1,
            !(old(self).level() == 4 && index == RECURSIVE_INDEX),
            !(old(self).entries()[index as int].is_present() && old(self).entries()[index as int].is_huge()),
            old(allocator).wf(),
        ensures
            final(self).wf(),
            final(self).level() == old(self).level(),
            final(allocator).wf(),
            forall|g: int| #[trigger] final(allocator).available(g) ==> old(allocator).available(g),
            old(allocator).exclusive() ==> final(allocator).exclusive(),
            old(self).level() == 4 ==> final(self).recursive_frame() == old(self).recursive_frame(),
            forall|q: Page| #[trigger] final(self).lookup(q) == old(self).lookup(q),
            forall|q: Page| #[trigger] final(self).maps_small(q) == old(self).maps_small(q),
            result is Ok ==> final(self).child(index as int).is_some(),
            result is Ok ==> forall|i: int|
                0 <= i < 512 && i != index ==> final(self).child(i) == old(self).child(i),
            old(self).child(index as int).is_some() ==> result is Ok && *final(self) == *old(self)
                && *final(allocator) == *old(allocator),
            result is Err ==> result == Err::<(), MapError>(MapError::OutOfMemory) && *final(self)
                == *old(self),
            // A table that is made lies in a frame that the allocator handed
            // out; the entry points to it as present and writable, the new
            // table is cleared, and the counter of this one went up by one.
            result is Ok && old(self).child(index as int).is_none() ==> {
                let entry = final(self).entries()[index as int];
                let child = final(self).child(index as int).unwrap();
                &&& entry.spec_flags() == (EntryFlags { bits: PRESENT | WRITABLE })
                &&& old(allocator).available(entry.frame_number() as int)
                &&& old(allocator).exclusive() ==> !final(allocator).available(entry.frame_number() as int)
                &&& forall|i: int| 0 <= i < 512 ==> #[trigger] child.entries()[i] == Entry(0)
                &&& forall|q: Page| #[trigger] child.missing_tables(q) == old(self).level() - 2
                &&& final(self).spec_entry_count() == old(self).spec_entry_count() + 1
                &&& forall|i: int|
                    1 <= i < 512 && i != index ==> #[trigger] final(self).entries()[i] == old(self).entries()[i]
            },
            forall|q: Page| old(self).has_tables_for(q) ==> #[trigger] final(self).has_tables_for(q),
            // The table is made where the allocator promises a frame, and
            // takes no more than that one.
            old(allocator).promises(1) ==> result is Ok,
            forall|n: nat| old(allocator).promises(n + 1) ==> #[trigger] final(allocator).promises(n),
    {
        let ghost level = self.level as int;
        let ghost before = *self;
        proof {
            assert(self.entry_ok(index as int));
            lemma_live_count_bounds(self.entries@, level, 512);
        }
        proof {
            assert forall|n: nat| old(allocator).promises(n + 1) implies #[trigger] old(allocator).promises(n) by {
                old(allocator).lemma_promises(n + 1, n);
            }
        }
        if self.children[index].is_none() {
            let table_frame = match allocator.allocate_frames(1) {
                Some(f) => f,
                None => {
                    return Err(MapError::OutOfMemory);
                },
            };
            proof {
                lemma_unused_entry(before.entries@[index as int]);
                lemma_live_count_update_bound(self.entries@, level, index as int);
            }
            let count = self.entry_count();
            self.set_entry_count(count + 1);
            proof {
                lemma_table_flags();
            }
            let mut entry = self.entries[index];
            entry.set(table_frame, EntryFlags { bits: PRESENT }.union(EntryFlags { bits: WRITABLE }));
            self.entries[index] = entry;
            let fresh = Table::new(self.level - 1);
            self.children[index] = Some(fresh);
            proof {
                lemma_table_flags();
                lemma_live_count_update(before.entries@, self.entries@, level, index as int, 512);
                assert forall|i: int| 0 <= i < 512 implies self.entry_ok(i) by {
                    assert(before.entry_ok(i));
                }
                assert(self.wf());
                assert forall|q: Page| #[trigger] self.lookup(q) == before.lookup(q) by {
                    lemma_index_in_range(q, level);
                    let k = q.index(level);
                    if k == index {
                        assert(fresh.lookup(q).is_none());
                        assert(!before.entries@[k].is_present());
                        assert(before.children@[k].is_none());
                        assert(self.children@[k] == Some(fresh));
                        assert(self.entries@[k].is_present() && !self.entries@[k].is_huge());
                    } else {
                        assert(self.children@[k] == before.children@[k]);
                        assert(self.entries@[k].spec_flags() == before.entries@[k].spec_flags());
                        assert(self.entries@[k].frame_number() == before.entries@[k].frame_number());
                    }
                }
                assert forall|q: Page| #[trigger] self.maps_small(q) == before.maps_small(q) by {
                    lemma_index_in_range(q, level);
                    let k = q.index(level);
                    if k == index {
                        assert(!fresh.maps_small(q));
                        assert(before.children@[k].is_none());
                        assert(self.children@[k] == Some(fresh));
                    } else {
                        assert(self.children@[k] == before.children@[k]);
                    }
                }
                assert forall|q: Page| before.has_tables_for(q) implies #[trigger] self.has_tables_for(
                    q,
                ) by {
                    lemma_index_in_range(q, level);
                    let k = q.index(level);
                    if k != index {
                        assert(self.children@[k] == before.children@[k]);
                    }
                }
                assert(self.entries()[index as int].spec_flags() == (EntryFlags { bits: PRESENT | WRITABLE }));
                assert(old(allocator).available(table_frame.number as int));
            }
        }
        Ok(())
    }

    /// Maps `page` to `frame` in the hierarchy below this table.
    ///
    /// Tables that the walk needs and that are not there are created: a
    /// frame is taken from `allocator` for each, the new table is cleared and
    /// linked, and the counter of the table that points to it goes up. The
    /// counter of the leaf table goes up and the leaf entry is written with
    /// `flags` and the present flag.
    ///
    /// On success `page` is mapped as asked and every other page is mapped
    /// as before. Where the allocator has no frame for a table the call
    /// fails, and every page is mapped as before; this cannot happen where
    /// all tables of the walk are there already.
    pub fn map_at<A: FrameAllocator>(
        &mut self,
        page: Page,
        frame: Frame,
        flags: EntryFlags,
        allocator: &mut A,
    ) -> (result: Result<(), MapError>)
        requires
            old(self).wf(),
            old(self).lookup(page).is_none(),
            old(self).level() == 4 ==> page.index(4) != RECURSIVE_INDEX,
            frame.valid(),
            flags.valid(),
            old(allocator).wf(),
        ensures
            final(self).wf(),
            final(self).level() == old(self).level(),
            final(allocator).wf(),
            forall|g: int| #[trigger] final(allocator).available(g) ==> old(allocator).available(g),
            old(allocator).exclusive() ==> final(allocator).exclusive(),
            result is Ok ==> forall|q: Page| #[trigger]
                final(self).lookup(q) == if same_path(q, page, old(self).level()) {
                    Some(new_mapping(frame, flags))
                } else {
                    old(self).lookup(q)
                },
            old(self).level() == 4 ==> final(self).recursive_frame() == old(self).recursive_frame(),
            result is Ok ==> final(self).has_tables_for(page),
            result is Err ==> result == Err::<(), MapError>(MapError::OutOfMemory),
            result is Err ==> forall|q: Page| #[trigger] final(self).lookup(q) == old(self).lookup(q),
            old(self).has_tables_for(page) ==> result is Ok,
            forall|q: Page|
                !same_path(q, page, old(self).level()) ==> #[trigger] final(self).maps_small(q) == old(self).maps_small(q),
            forall|q: Page| old(self).has_tables_for(q) ==> #[trigger] final(self).has_tables_for(q),
            // The page is mapped where the allocator promises a frame for
            // every table that is missing, and no more frames are taken.
            old(allocator).promises(old(self).missing_tables(page)) ==> result is Ok,
            forall|n: nat|
                old(allocator).promises(n + old(self).missing_tables(page)) ==> #[trigger] final(allocator).promises(n),
        decreases old(self).level(),
    {
        let index = self.index_of(page);
        let ghost level = self.level as int;
        let ghost before = *self;
        let ghost start = *allocator;
        proof {
            assert(self.entry_ok(index as int));
            lemma_live_count_bounds(self.entries@, level, 512);
        }
        if self.level == 1 {
            proof {
                lemma_live_count_update_bound(self.entries@, level, index as int);
            }
            let count = self.entry_count();
            self.set_entry_count(count + 1);
            proof {
                lemma_table_flags();
            }
            let mut entry = self.entries[index];
            entry.set(frame, flags.union(EntryFlags { bits: PRESENT }));
            self.entries[index] = entry;
            proof {
                assert(!(frame.number == 0 && (flags.bits | PRESENT) == 0)) by {
                    lemma_flag_tests(flags);
                }
                lemma_live_count_update(before.entries@, self.entries@, level, index as int, 512);
                assert forall|i: int| 0 <= i < 512 implies self.entry_ok(i) by {
                    assert(before.entry_ok(i));
                }
                assert forall|q: Page| #[trigger]
                    self.lookup(q) == if same_path(q, page, level) {
                        Some(new_mapping(frame, flags))
                    } else {
                        before.lookup(q)
                    } by {
                    lemma_index_in_range(q, 1);
                    if q.index(1) == page.index(1) {
                        assert(same_path(q, page, 1));
                    } else {
                        assert(!same_path(q, page, 1));
                    }
                }
                assert forall|q: Page| !same_path(q, page, level) implies #[trigger] self.maps_small(
                    q,
                ) == before.maps_small(q) by {
                    lemma_index_in_range(q, 1);
                    if q.index(1) == page.index(1) {
                        assert(same_path(q, page, 1));
                    } else {
                        let k = q.index(1);
                        assert(self.entries@[k].spec_flags() == before.entries@[k].spec_flags());
                    }
                }
            }
            Ok(())
        } else {
            proof {
                if start.promises(before.missing_tables(page)) && before.children@[index as int] is None {
                    start.lemma_promises(before.missing_tables(page), 1);
                }
            }
            match self.next_table_create(index, allocator) {
                Ok(()) => {},
                Err(e) => {
                    proof {
                        assert forall|n: nat| start.promises(n + before.missing_tables(page)) implies #[trigger] allocator.promises(
                            n,
                        ) by {
                            start.lemma_promises(n + before.missing_tables(page), n + 1);
                            start.lemma_promises(n + before.missing_tables(page), n);
                        }
                    }
                    return Err(e);
                },
            }
            let ghost linked = *self;
            let ghost middle = *allocator;
            proof {
                assert(self.entry_ok(index as int));
                assert(self.lookup(page) == before.lookup(page));
                assert(self.lookup(page) == self.children@[index as int]->0.lookup(page));
            }
            let mut child = self.children[index].take().unwrap();
            let ghost child_before = child;
            let result = child.map_at(page, frame, flags, allocator);
            self.children[index] = Some(child);
            proof {
                assert(self.entries@ == linked.entries@);
                assert forall|i: int| 0 <= i < 512 implies self.entry_ok(i) by {
                    assert(linked.entry_ok(i));
                }
                assert(self.wf());
                assert forall|q: Page| #[trigger]
                    self.lookup(q) == if q.index(level) == page.index(level) {
                        child.lookup(q)
                    } else {
                        linked.lookup(q)
                    } by {
                    lemma_index_in_range(q, level);
                }
                assert forall|q: Page|
                    q.index(level) == page.index(level) implies #[trigger] linked.lookup(q)
                    == child_before.lookup(q) by {
                    lemma_index_in_range(q, level);
                }
                assert forall|q: Page|
                    same_path(q, page, level) == (q.index(level) == page.index(level) && same_path(
                        q,
                        page,
                        level - 1,
                    )) by {
                    lemma_same_path_step(q, page, level);
                }
                assert forall|q: Page| !same_path(q, page, level) implies #[trigger] self.maps_small(
                    q,
                ) == before.maps_small(q) by {
                    lemma_index_in_range(q, level);
                    lemma_same_path_step(q, page, level);
                    let k = q.index(level);
                    assert(linked.maps_small(q) == before.maps_small(q));
                    if k == index {
                        assert(self.children@[k] == Some(child));
                        assert(linked.children@[k] == Some(child_before));
                        assert(child.maps_small(q) == child_before.maps_small(q));
                    } else {
                        assert(self.children@[k] == linked.children@[k]);
                    }
                }
                assert forall|q: Page| before.has_tables_for(q) implies #[trigger] self.has_tables_for(
                    q,
                ) by {
                    lemma_index_in_range(q, level);
                    let k = q.index(level);
                    assert(linked.has_tables_for(q));
                    if k == index {
                        assert(self.children@[k] == Some(child));
                        assert(linked.children@[k] == Some(child_before));
                        assert(child_before.has_tables_for(q));
                        assert(child.has_tables_for(q));
                        assert(child.level == child_before.level);
                    } else {
                        assert(self.children@[k] == linked.children@[k]);
                    }
                }
                // The frames: one for the table that was made here, if one
                // was, and those that the tables below took.
                let below = child_before.missing_tables(page);
                let missing = before.missing_tables(page);
                if before.children@[index as int] is None {
                    assert(missing == level - 1);
                    assert(linked.child(index as int) == Some(child_before));
                    assert(below == level - 2);
                    if start.promises(missing) {
                        assert(middle.promises(below));
                    }
                    assert forall|n: nat| start.promises(n + missing) implies #[trigger] allocator.promises(
                        n,
                    ) by {
                        assert(middle.promises(n + below));
                    }
                } else {
                    assert(middle == start);
                    assert(missing == below);
                }
            }
            result
        }
    }
}

impl Table {
    /// The walk for `page` reaches a present entry of a leaf table: the
    /// page is mapped, and not as part of a huge block.
    pub closed spec fn maps_small(&self, page: Page) -> bool
        decreases self.level(),
    {
        if self.level <= 1 {
            self.entries@[page.index(self.level as int)].is_present()
        } else {
            match self.children@[page.index(self.level as int)] {
                Some(c) => c.level < self.level && c.maps_small(page),
                None => false,
            }
        }
    }

    /// The number of live entries of the leaf table in which the walk for
    /// `page` ends; 0 where the walk does not come that far.
    pub closed spec fn leaf_count(&self, page: Page) -> int
        decreases self.level(),
    {
        if self.level <= 1 {
            self.entries@[0].spec_counter() as int
        } else {
            match self.children@[page.index(self.level as int)] {
                Some(c) => if c.level < self.level {
                    c.leaf_count(page)
                } else {
                    0
                },
                None => 0,
            }
        }
    }

    /// Unmapping `page` leaves this table without a live entry: its only
    /// live entry is the one of the walk, and, above the leaves, the table
    /// below is left empty too.
    pub closed spec fn emptied_by(&self, page: Page) -> bool
        decreases self.level(),
    {
        self.entries@[0].spec_counter() == 1 && (self.level <= 1 || match self.children@[page.index(
            self.level as int,
        )] {
            Some(c) => c.level < self.level && c.emptied_by(page),
            None => false,
        })
    }

    /// The numbers of the frames of the tables below this one that
    /// unmapping `page` lets go, the lowest table first: those that are left
    /// empty.
    pub closed spec fn freed_tables(&self, page: Page) -> Seq<u64>
        decreases self.level(),
    {
        if self.level <= 1 {
            Seq::empty()
        } else {
            match self.children@[page.index(self.level as int)] {
                Some(c) => if c.level < self.level {
                    if c.emptied_by(page) {
                        c.freed_tables(page).push(self.entries@[page.index(self.level as int)].frame_number())
                    } else {
                        c.freed_tables(page)
                    }
                } else {
                    Seq::empty()
                },
                None => Seq::empty(),
            }
        }
    }

    /// A table above the leaves that has the tables for a walk below it has
    /// a live entry: the one that the walk goes through.
    pub proof fn lemma_walked_table_is_live(&self, page: Page)
        requires
            self.wf(),
            self.level() > 1,
            self.has_tables_for(page),
        ensures
            self.spec_entry_count() > 0,
    {
        let level = self.level as int;
        lemma_index_in_range(page, level);
        let k = page.index(level);
        assert(self.entry_ok(k));
        assert(self.children@[k].is_some());
        if self.entries@[k].spec_is_unused() {
            lemma_unused_entry(self.entries@[k]);
        }
        lemma_live_count_has(self.entries@, level, k, 512);
    }

    /// Frame `frame` holds one of the tables that the walk for `page`
    /// passes through below this one.
    pub closed spec fn table_frame_on_path(&self, page: Page, frame: int) -> bool
        decreases self.level(),
    {
        self.level > 1 && match self.children@[page.index(self.level as int)] {
            Some(c) => self.entries@[page.index(self.level as int)].frame_number() == frame || (c.level
                < self.level && c.table_frame_on_path(page, frame)),
            None => false,
        }
    }

    /// Takes the mapping of `page` out of the hierarchy below this table and
    /// hands back the frame that it was mapped to.
    ///
    /// The leaf entry is cleared and the counter of the leaf table goes
    /// down. Unless `keep_parents` is set, a table on the walk that is left
    /// with no live entry is let go: the entry that pointed to it is
    /// cleared, the counter of the table above goes down, and its frame is
    /// given back to `allocator`; this goes on upwards as long as tables
    /// become empty. Every other page is mapped as before.
    pub fn unmap_at<A: FrameAllocator>(&mut self, page: Page, keep_parents: bool, allocator: &mut A) -> (frame:
        Frame)
        requires
            old(self).wf(),
            old(self).maps_small(page),
            old(allocator).wf(),
        ensures
            final(self).wf(),
            final(self).level() == old(self).level(),
            final(allocator).wf(),
            old(self).level() == 4 ==> final(self).recursive_frame() == old(self).recursive_frame(),
            old(self).lookup(page) matches Some(m) && m.frame == frame,
            frame.valid(),
            forall|q: Page| #[trigger]
                final(self).lookup(q) == if same_path(q, page, old(self).level()) {
                    None
                } else {
                    old(self).lookup(q)
                },
            keep_parents ==> *final(allocator) == *old(allocator),
            forall|g: int| #[trigger]
                final(allocator).available(g) ==> old(allocator).available(g) || old(self).table_frame_on_path(page, g),
            forall|q: Page|
                !same_path(q, page, old(self).level()) ==> #[trigger] final(self).maps_small(q) == old(self).maps_small(q),
            // With `keep_parents` every table of the walk stays. Without it
            // the tables stay exactly where the leaf table is left with a
            // live entry: a table that is left empty goes, and so does every
            // table above it that is left empty by that.
            keep_parents ==> final(self).has_tables_for(page),
            !keep_parents && old(self).level() > 1 ==> final(self).has_tables_for(page) == (old(self).leaf_count(page) > 1),
            old(self).level() == 1 ==> final(self).spec_entry_count() == old(self).spec_entry_count() - 1,
            old(self).leaf_count(page) >= 1,
            // The frames of the tables that are let go are given back, the
            // lowest table first, and no other frame is.
            !keep_parents ==> gave_back_all(*old(allocator), *final(allocator), old(self).freed_tables(page)),
            !keep_parents ==> (final(self).spec_entry_count() == 0) == old(self).emptied_by(page),
        decreases old(self).level(),
    {
        let index = self.index_of(page);
        let ghost level = self.level as int;
        let ghost before = *self;
        proof {
            assert(self.entry_ok(index as int));
            lemma_live_count_bounds(self.entries@, level, 512);
        }
        if self.level == 1 {
            let mut entry = self.entries[index];
            let frame = entry.pointed_frame().unwrap();
            proof {
                if entry.spec_is_unused() {
                    lemma_unused_entry(entry);
                }
                lemma_live_count_has(self.entries@, level, index as int, 512);
            }
            let count = self.entry_count();
            self.set_entry_count(count - 1);
            let mut entry = self.entries[index];
            entry.set_unused();
            self.entries[index] = entry;
            proof {
                lemma_live_count_update(before.entries@, self.entries@, level, index as int, 512);
                assert forall|i: int| 0 <= i < 512 implies self.entry_ok(i) by {
                    assert(before.entry_ok(i));
                }
                assert forall|q: Page| #[trigger]
                    self.lookup(q) == if same_path(q, page, level) {
                        None
                    } else {
                        before.lookup(q)
                    } by {
                    lemma_index_in_range(q, 1);
                    if q.index(1) == page.index(1) {
                        assert(same_path(q, page, 1));
                    } else {
                        assert(!same_path(q, page, 1));
                    }
                }
                assert forall|q: Page| !same_path(q, page, level) implies #[trigger] self.maps_small(
                    q,
                ) == before.maps_small(q) by {
                    lemma_index_in_range(q, 1);
                    if q.index(1) == page.index(1) {
                        assert(same_path(q, page, 1));
                    } else {
                        let k = q.index(1);
                        assert(self.entries@[k].spec_flags() == before.entries@[k].spec_flags());
                    }
                }
            }
            frame
        } else {
            let mut child = self.children[index].take().unwrap();
            let ghost child_before = child;
            let ghost allocator_before = *allocator;
            let frame = child.unmap_at(page, keep_parents, allocator);
            let ghost allocator_middle = *allocator;
            proof {
                assert forall|q: Page|
                    same_path(q, page, level) == (q.index(level) == page.index(level) && same_path(
                        q,
                        page,
                        level - 1,
                    )) by {
                    lemma_same_path_step(q, page, level);
                }
                assert forall|q: Page|
                    q.index(level) == page.index(level) implies #[trigger] before.lookup(q)
                    == child_before.lookup(q) by {
                    lemma_index_in_range(q, level);
                }
            }
            if !keep_parents && child.is_unused() {
                let mut entry = self.entries[index];
                let table_frame = entry.pointed_frame().unwrap();
                proof {
                    if entry.spec_is_unused() {
                        lemma_unused_entry(entry);
                    }
                    lemma_live_count_has(self.entries@, level, index as int, 512);
                }
                let count = self.entry_count();
                self.set_entry_count(count - 1);
                let mut entry = self.entries[index];
                entry.set_unused();
                self.entries[index] = entry;
                allocator.deallocate_frames(table_frame, 1);
                proof {
                    lemma_live_count_update(before.entries@, self.entries@, level, index as int, 512);
                    assert forall|i: int| 0 <= i < 512 implies self.entry_ok(i) by {
                        assert(before.entry_ok(i));
                    }
                    assert(self.wf());
                    assert forall|q: Page| #[trigger]
                        self.lookup(q) == if same_path(q, page, level) {
                            None
                        } else {
                            before.lookup(q)
                        } by {
                        lemma_index_in_range(q, level);
                        lemma_index_in_range(q, 4);
                        let k = q.index(level);
                        if k == index {
                            assert(child.lookup(q).is_none());
                            assert(self.children@[k].is_none());
                            assert(!self.entries@[k].is_present());
                        } else {
                            assert(self.children@[k] == before.children@[k]);
                            assert(self.entries@[k].spec_flags() == before.entries@[k].spec_flags());
                            assert(self.entries@[k].frame_number()
                                == before.entries@[k].frame_number());
                        }
                    }
                    assert forall|q: Page|
                        !same_path(q, page, level) implies #[trigger] self.maps_small(q)
                        == before.maps_small(q) by {
                        lemma_index_in_range(q, level);
                        lemma_same_path_step(q, page, level);
                        let k = q.index(level);
                        if k == index {
                            assert(!child.maps_small(q));
                            assert(before.children@[k] == Some(child_before));
                            assert(child.maps_small(q) == child_before.maps_small(q));
                            assert(self.children@[k].is_none());
                        } else {
                            assert(self.children@[k] == before.children@[k]);
                        }
                    }
                    assert(self.children@[index as int].is_none());
                    assert(!self.has_tables_for(page));
                    assert(before.leaf_count(page) == child_before.leaf_count(page));
                    assert(child_before.emptied_by(page));
                    assert(table_frame.number == before.entries@[index as int].frame_number());
                    lemma_gave_back_one_more(
                        allocator_before,
                        allocator_middle,
                        *allocator,
                        child_before.freed_tables(page),
                        table_frame.number,
                    );
                    assert(before.freed_tables(page) == child_before.freed_tables(page).push(
                        table_frame.number,
                    ));
                    if level > 2 {
                        if child.has_tables_for(page) {
                            child.lemma_walked_table_is_live(page);
                        }
                    }
                    assert(before.table_frame_on_path(page, table_frame.number as int));
                    assert forall|g: int| #[trigger]
                        allocator.available(g) implies allocator_before.available(g)
                        || before.table_frame_on_path(page, g) by {
                        if allocator_middle.available(g) {
                            if !allocator_before.available(g) {
                                assert(child_before.table_frame_on_path(page, g));
                            }
                        }
                    }
                }
            } else {
                self.children[index] = Some(child);
                proof {
                    assert(self.entries@ == before.entries@);
                    assert forall|i: int| 0 <= i < 512 implies self.entry_ok(i) by {
                        assert(before.entry_ok(i));
                    }
                    assert(self.wf());
                    assert forall|q: Page| #[trigger]
                        self.lookup(q) == if q.index(level) == page.index(level) {
                            child.lookup(q)
                        } else {
                            before.lookup(q)
                        } by {
                        lemma_index_in_range(q, level);
                    }
                    assert forall|q: Page|
                        !same_path(q, page, level) implies #[trigger] self.maps_small(q)
                        == before.maps_small(q) by {
                        lemma_index_in_range(q, level);
                        lemma_same_path_step(q, page, level);
                        let k = q.index(level);
                        if k == index {
                            assert(self.children@[k] == Some(child));
                            assert(before.children@[k] == Some(child_before));
                            assert(child.maps_small(q) == child_before.maps_small(q));
                        } else {
                            assert(self.children@[k] == before.children@[k]);
                        }
                    }
                    assert forall|g: int| #[trigger]
                        allocator.available(g) implies allocator_before.available(g)
                        || before.table_frame_on_path(page, g) by {
                        if !allocator_before.available(g) {
                            assert(child_before.table_frame_on_path(page, g));
                        }
                    }
                    assert(self.children@[index as int] == Some(child));
                    assert(self.has_tables_for(page) == child.has_tables_for(page));
                    assert(before.leaf_count(page) == child_before.leaf_count(page));
                    if !keep_parents {
                        assert(!child_before.emptied_by(page));
                        assert(before.freed_tables(page) == child_before.freed_tables(page));
                        if before.entries@[index as int].spec_is_unused() {
                            lemma_unused_entry(before.entries@[index as int]);
                        }
                        lemma_live_count_has(before.entries@, level, index as int, 512);
                    }
                }
            }
            frame
        }
    }

    /// Gives the mapping of `page` new flags and leaves the frame as it is.
    /// Every other page is mapped as before.
    pub fn remap_at(&mut self, page: Page, flags: EntryFlags)
        requires
            old(self).wf(),
            old(self).maps_small(page),
            flags.valid(),
        ensures
            final(self).wf(),
            final(self).level() == old(self).level(),
            old(self).level() == 4 ==> final(self).recursive_frame() == old(self).recursive_frame(),
            final(self).maps_small(page),
            old(self).lookup(page).is_some(),
            forall|q: Page| #[trigger]
                final(self).lookup(q) == if same_path(q, page, old(self).level()) {
                    Some(new_mapping(old(self).lookup(page).unwrap().frame, flags))
                } else {
                    old(self).lookup(q)
                },
            forall|q: Page|
                !same_path(q, page, old(self).level()) ==> #[trigger] final(self).maps_small(q) == old(self).maps_small(q),
        decreases old(self).level(),
    {
        let index = self.index_of(page);
        let ghost level = self.level as int;
        let ghost before = *self;
        proof {
            assert(self.entry_ok(index as int));
        }
        if self.level == 1 {
            let mut entry = self.entries[index];
            let frame = entry.pointed_frame().unwrap();
            proof {
                if entry.spec_is_unused() {
                    lemma_unused_entry(entry);
                }
                lemma_table_flags();
            }
            entry.set(frame, flags.union(EntryFlags { bits: PRESENT }));
            self.entries[index] = entry;
            proof {
                assert(!(frame.number == 0 && (flags.bits | PRESENT) == 0)) by {
                    lemma_flag_tests(flags);
                }
                lemma_live_count_update(before.entries@, self.entries@, level, index as int, 512);
                assert forall|i: int| 0 <= i < 512 implies self.entry_ok(i) by {
                    assert(before.entry_ok(i));
                }
                assert forall|q: Page| #[trigger]
                    self.lookup(q) == if same_path(q, page, level) {
                        Some(new_mapping(before.lookup(page).unwrap().frame, flags))
                    } else {
                        before.lookup(q)
                    } by {
                    lemma_index_in_range(q, 1);
                    if q.index(1) == page.index(1) {
                        assert(same_path(q, page, 1));
                    } else {
                        assert(!same_path(q, page, 1));
                    }
                }
                assert forall|q: Page| !same_path(q, page, level) implies #[trigger] self.maps_small(
                    q,
                ) == before.maps_small(q) by {
                    lemma_index_in_range(q, 1);
                    if q.index(1) == page.index(1) {
                        assert(same_path(q, page, 1));
                    } else {
                        let k = q.index(1);
                        assert(self.entries@[k].spec_flags() == before.entries@[k].spec_flags());
                    }
                }
            }
        } else {
            let mut child = self.children[index].take().unwrap();
            let ghost child_before = child;
            child.remap_at(page, flags);
            self.children[index] = Some(child);
            proof {
                assert(self.entries@ == before.entries@);
                assert forall|i: int| 0 <= i < 512 implies self.entry_ok(i) by {
                    assert(before.entry_ok(i));
                }
                assert(self.wf());
                assert forall|q: Page|
                    same_path(q, page, level) == (q.index(level) == page.index(level) && same_path(
                        q,
                        page,
                        level - 1,
                    )) by {
                    lemma_same_path_step(q, page, level);
                }
                assert forall|q: Page|
                    q.index(level) == page.index(level) implies #[trigger] before.lookup(q)
                    == child_before.lookup(q) by {
                    lemma_index_in_range(q, level);
                }
                assert forall|q: Page| #[trigger]
                    self.lookup(q) == if q.index(level) == page.index(level) {
                        child.lookup(q)
                    } else {
                        before.lookup(q)
                    } by {
                    lemma_index_in_range(q, level);
                }
                assert(same_path(page, page, level - 1));
                assert(before.lookup(page) == child_before.lookup(page));
                assert forall|q: Page| !same_path(q, page, level) implies #[trigger] self.maps_small(
                    q,
                ) == before.maps_small(q) by {
                    lemma_index_in_range(q, level);
                    lemma_same_path_step(q, page, level);
                    let k = q.index(level);
                    if k == index {
                        assert(self.children@[k] == Some(child));
                        assert(before.children@[k] == Some(child_before));
                        assert(child.maps_small(q) == child_before.maps_small(q));
                    } else {
                        assert(self.children@[k] == before.children@[k]);
                    }
                }
            }
        }
    }
}

impl Table {
    /// A copy of the table and of all tables below it. The copy maps every
    /// page as this table does.
    pub fn duplicate(&self) -> (copy: Table)
        requires
            self.wf(),
        ensures
            copy.wf(),
            copy.level() == self.level(),
            copy.entries() == self.entries(),
            forall|q: Page| #[trigger] copy.lookup(q) == self.lookup(q),
            forall|q: Page| #[trigger] copy.maps_small(q) == self.maps_small(q),
        decreases self.level(),
    {
        let mut entries: Vec<Entry> = Vec::new();
        let mut children: Vec<Option<Table>> = Vec::new();
        let mut i: usize = 0;
        while i < ENTRY_COUNT
            invariant
                self.wf(),
                i <= 512,
                entries@.len() == i,
                children@.len() == i,
                forall|j: int| 0 <= j < i ==> #[trigger] entries@[j] == self.entries@[j],
                forall|j: int|
                    0 <= j < i ==> match #[trigger] children@[j] {
                        Some(c) => {
                            &&& self.children@[j].is_some()
                            &&& c.wf()
                            &&& c.level == self.level - 1
                            &&& forall|q: Page| #[trigger]
                                c.lookup(q) == self.children@[j].unwrap().lookup(q)
                            &&& forall|q: Page| #[trigger]
                                c.maps_small(q) == self.children@[j].unwrap().maps_small(q)
                        },
                        None => self.children@[j].is_none(),
                    },
            decreases 512 - i,
        {
            entries.push(self.entries[i]);
            let child = match &self.children[i] {
                Some(c) => Some(c.duplicate()),
                None => None,
            };
            children.push(child);
            i += 1;
        }
        let copy = Table { level: self.level, entries, children };
        proof {
            assert(copy.entries@ =~= self.entries@);
            assert forall|k: int| 0 <= k < 512 implies copy.entry_ok(k) by {
                assert(self.entry_ok(k));
                assert(copy.children@[k].is_some() == self.children@[k].is_some());
            }
            assert(copy.wf());
            assert forall|q: Page| #[trigger] copy.lookup(q) == self.lookup(q) by {
                lemma_index_in_range(q, self.level as int);
                let k = q.index(self.level as int);
                assert(copy.children@[k].is_some() == self.children@[k].is_some());
                assert(copy.entries@[k] == self.entries@[k]);
                if copy.children@[k] is Some {
                    let c = copy.children@[k]->0;
                    let d = self.children@[k]->0;
                    assert(d.level == self.level - 1);
                    assert(c.lookup(q) == d.lookup(q));
                }
            }
            assert forall|q: Page| #[trigger] copy.maps_small(q) == self.maps_small(q) by {
                lemma_index_in_range(q, self.level as int);
                let k = q.index(self.level as int);
                assert(copy.children@[k].is_some() == self.children@[k].is_some());
                assert(copy.entries@[k] == self.entries@[k]);
                if copy.children@[k] is Some {
                    let c = copy.children@[k]->0;
                    let d = self.children@[k]->0;
                    assert(d.level == self.level - 1);
                    assert(c.maps_small(q) == d.maps_small(q));
                }
            }
        }
        copy
    }

    /// The index is one of an entry of a top-level table that is not the
    /// slot of the recursive mapping.
    pub open spec fn is_shareable_index(index: int) -> bool {
        0 <= index < RECURSIVE_INDEX
    }

    /// Takes over the entry at `index` of the top-level table `source`,
    /// with a copy of all tables below it, into this top-level table. What
    /// the entry held before is dropped.
    ///
    /// Afterwards this hierarchy maps the pages of that entry as `source`
    /// does, and every other page as before.
    pub fn share_entry(&mut self, index: usize, source: &Table)
        requires
            old(self).wf(),
            old(self).level() == 4,
            source.wf(),
            source.level() == 4,
            Self::is_shareable_index(index as int),
        ensures
            final(self).wf(),
            final(self).level() == 4,
            final(self).recursive_frame() == old(self).recursive_frame(),
            forall|q: Page| #[trigger]
                final(self).lookup(q) == if q.index(4) == index {
                    source.lookup(q)
                } else {
                    old(self).lookup(q)
                },
            forall|q: Page| #[trigger]
                final(self).maps_small(q) == if q.index(4) == index {
                    source.maps_small(q)
                } else {
                    old(self).maps_small(q)
                },
    {
        let ghost start = *self;
        proof {
            assert(self.entry_ok(index as int));
            lemma_live_count_bounds(self.entries@, 4, 512);
        }
        if !self.entries[index].is_unused() {
            proof {
                lemma_live_count_has(self.entries@, 4, index as int, 512);
            }
            let count = self.entry_count();
            self.set_entry_count(count - 1);
            let mut own = self.entries[index];
            own.set_unused();
            self.entries[index] = own;
            self.children[index] = None;
            proof {
                lemma_live_count_update(start.entries@, self.entries@, 4, index as int, 512);
                assert forall|i: int| 0 <= i < 512 implies self.entry_ok(i) by {
                    assert(start.entry_ok(i));
                }
                assert(self.wf());
                assert forall|q: Page| q.index(4) != index implies #[trigger] self.lookup(q)
                    == start.lookup(q) by {
                    lemma_index_in_range(q, 4);
                    let k = q.index(4);
                    assert(self.children@[k] == start.children@[k]);
                    assert(self.entries@[k].spec_flags() == start.entries@[k].spec_flags());
                    assert(self.entries@[k].frame_number() == start.entries@[k].frame_number());
                }
                assert forall|q: Page| q.index(4) != index implies #[trigger] self.maps_small(q)
                    == start.maps_small(q) by {
                    lemma_index_in_range(q, 4);
                    let k = q.index(4);
                    assert(self.children@[k] == start.children@[k]);
                }
            }
        }
        let ghost before = *self;
        let entry = source.entries[index];
        proof {
            assert(self.entry_ok(index as int));
            assert(source.entry_ok(index as int));
            lemma_unused_entry(before.entries@[index as int]);
            lemma_live_count_bounds(self.entries@, 4, 512);
            assert forall|q: Page| q.index(4) == index implies (#[trigger] before.lookup(q)).is_none()
                && !before.maps_small(q) by {
                lemma_index_in_range(q, 4);
            }
        }
        if entry.is_unused() {
            proof {
                lemma_unused_entry(entry);
                assert forall|q: Page| #[trigger]
                    self.lookup(q) == if q.index(4) == index {
                        source.lookup(q)
                    } else {
                        start.lookup(q)
                    } by {
                    lemma_index_in_range(q, 4);
                    if q.index(4) != index {
                        assert(before.lookup(q) == start.lookup(q));
                    }
                }
                assert forall|q: Page| #[trigger]
                    self.maps_small(q) == if q.index(4) == index {
                        source.maps_small(q)
                    } else {
                        start.maps_small(q)
                    } by {
                    lemma_index_in_range(q, 4);
                    if q.index(4) != index {
                        assert(before.maps_small(q) == start.maps_small(q));
                    }
                }
            }
            return;
        }
        let frame = entry.pointed_frame().unwrap();
        let child = match &source.children[index] {
            Some(c) => Some(c.duplicate()),
            None => None,
        };
        proof {
            lemma_live_count_update_bound(self.entries@, 4, index as int);
        }
        let count = self.entry_count();
        self.set_entry_count(count + 1);
        let mut own = self.entries[index];
        own.set(frame, entry.flags());
        self.entries[index] = own;
        self.children[index] = child;
        proof {
            lemma_live_count_update(before.entries@, self.entries@, 4, index as int, 512);
            assert(!own.spec_is_unused()) by {
                if own.spec_is_unused() {
                    lemma_unused_entry(own);
                }
            }
            assert forall|i: int| 0 <= i < 512 implies self.entry_ok(i) by {
                assert(before.entry_ok(i));
            }
            assert(self.wf());
            assert forall|q: Page| #[trigger]
                self.lookup(q) == if q.index(4) == index {
                    source.lookup(q)
                } else {
                    before.lookup(q)
                } by {
                lemma_index_in_range(q, 4);
                let k = q.index(4);
                if k != index {
                    assert(self.children@[k] == before.children@[k]);
                    assert(self.entries@[k].spec_flags() == before.entries@[k].spec_flags());
                    assert(self.entries@[k].frame_number() == before.entries@[k].frame_number());
                } else {
                    assert(self.children@[k] == child);
                    assert(self.entries@[k].spec_flags() == source.entries@[k].spec_flags());
                    assert(self.entries@[k].frame_number() == source.entries@[k].frame_number());
                    assert(!(source.entries@[k].is_present() && source.entries@[k].is_huge()));
                    if child is Some {
                        let c = child->0;
                        let d = source.children@[k]->0;
                        assert(d.level == 3);
                        assert(c.lookup(q) == d.lookup(q));
                    }
                }
            }
            assert forall|q: Page| #[trigger]
                self.maps_small(q) == if q.index(4) == index {
                    source.maps_small(q)
                } else {
                    before.maps_small(q)
                } by {
                lemma_index_in_range(q, 4);
                let k = q.index(4);
                if k != index {
                    assert(self.children@[k] == before.children@[k]);
                } else {
                    assert(self.children@[k] == child);
                    if child is Some {
                        let c = child->0;
                        let d = source.children@[k]->0;
                        assert(d.level == 3);
                        assert(c.maps_small(q) == d.maps_small(q));
                    }
                }
            }
            assert forall|q: Page| q.index(4) != index implies #[trigger] self.lookup(q)
                == start.lookup(q) by {
                assert(before.lookup(q) == start.lookup(q));
            }
            assert forall|q: Page| q.index(4) != index implies #[trigger] self.maps_small(q)
                == start.maps_small(q) by {
                assert(before.maps_small(q) == start.maps_small(q));
            }
        }
    }
}

impl Table {
    /// The number of the frame that the slot of the recursive mapping points
    /// to.
    pub closed spec fn recursive_frame(&self) -> u64 {
        self.entries@[RECURSIVE_INDEX as int].frame_number()
    }

    /// Points the slot of the recursive mapping of a top-level table to
    /// `frame`, as present and writable. No page is mapped differently.
    pub fn set_recursive_entry(&mut self, frame: Frame)
        requires
            old(self).wf(),
            old(self).level() == 4,
            frame.valid(),
        ensures
            final(self).wf(),
            final(self).level() == 4,
            final(self).recursive_frame() == frame.number,
            final(self).entries().len() == 512,
            final(self).entries()[RECURSIVE_INDEX as int].spec_flags() == (EntryFlags { bits: PRESENT | WRITABLE }),
            final(self).entries()[RECURSIVE_INDEX as int].spec_counter() == old(self).entries()[RECURSIVE_INDEX as int].spec_counter(),
            forall|i: int|
                0 <= i < 512 && i != RECURSIVE_INDEX ==> #[trigger] final(self).entries()[i] == old(self).entries()[i],
            forall|i: int| 0 <= i < 512 ==> #[trigger] final(self).child(i) == old(self).child(i),
            forall|q: Page| #[trigger] final(self).lookup(q) == old(self).lookup(q),
            forall|q: Page| final(self).maps_small(q) == old(self).maps_small(q),
            forall|q: Page| final(self).has_tables_for(q) == old(self).has_tables_for(q),
            forall|q: Page, g: int|
                final(self).table_frame_on_path(q, g) == old(self).table_frame_on_path(q, g),
    {
        let ghost before = *self;
        proof {
            lemma_table_flags();
            assert(self.entry_ok(RECURSIVE_INDEX as int));
        }
        let mut entry = self.entries[RECURSIVE_INDEX];
        entry.set(frame, EntryFlags { bits: PRESENT }.union(EntryFlags { bits: WRITABLE }));
        self.entries[RECURSIVE_INDEX] = entry;
        proof {
            lemma_live_count_update(before.entries@, self.entries@, 4, RECURSIVE_INDEX as int, 512);
            assert forall|i: int| 0 <= i < 512 implies self.entry_ok(i) by {
                assert(before.entry_ok(i));
            }
            assert forall|q: Page| #[trigger] self.lookup(q) == before.lookup(q) by {
                lemma_index_in_range(q, 4);
            }
            assert forall|q: Page| self.maps_small(q) == before.maps_small(q) by {
                lemma_index_in_range(q, 4);
            }
            assert forall|q: Page| self.has_tables_for(q) == before.has_tables_for(q) by {
                lemma_index_in_range(q, 4);
            }
            assert forall|q: Page, g: int|
                self.table_frame_on_path(q, g) == before.table_frame_on_path(q, g) by {
                lemma_index_in_range(q, 4);
                assert(before.entry_ok(q.index(4)));
            }
        }
    }
}

impl Table {
    /// A page that is mapped while all tables of its walk are there is
    /// mapped by an entry of a leaf table.
    pub proof fn lemma_mapped_small(&self, page: Page)
        requires
            self.wf(),
            self.has_tables_for(page),
            self.lookup(page).is_some(),
        ensures
            self.maps_small(page),
        decreases self.level(),
    {
        lemma_index_in_range(page, self.level());
        let i = page.index(self.level());
        assert(self.entry_ok(i));
        if self.level > 1 {
            let c = self.children@[i]->0;
            c.lemma_mapped_small(page);
        }
    }

    /// A page that is mapped by an entry of a leaf table is mapped, and all
    /// tables of its walk are there.
    pub proof fn lemma_small_is_mapped(&self, page: Page)
        requires
            self.wf(),
            self.maps_small(page),
        ensures
            self.has_tables_for(page),
            self.lookup(page).is_some(),
            self.lookup(page).unwrap().frame.valid(),
            self.level() == 4 ==> page.index(4) != RECURSIVE_INDEX,
        decreases self.level(),
    {
        lemma_index_in_range(page, self.level());
        let i = page.index(self.level());
        assert(self.entry_ok(i));
        if self.level > 1 {
            let c = self.children@[i]->0;
            c.lemma_small_is_mapped(page);
        } else {
            let v = self.entries@[i].0;
            assert((v & ADDRESS_MASK) / 4096 <= 0x0000_00ff_ffff_ffff) by (bit_vector)
                requires
                    ADDRESS_MASK == 0x000f_ffff_ffff_f000,
            ;
        }
    }
}

/// Where one of the first `n` entries is live, the number of live entries
/// is not zero.
pub proof fn lemma_live_count_has(entries: Seq<Entry>, level: int, index: int, n: nat)
    requires
        n <= entries.len(),
        0 <= index < n,
        is_live(entries[index], level, index),
    ensures
        live_count(entries, level, n) > 0,
    decreases n,
{
    if n - 1 > index {
        lemma_live_count_has(entries, level, index, (n - 1) as nat);
    }
}

/// The flags with which a table is linked, present and writable, are flags,
/// mark the entry as present and do not mark it as huge.
pub proof fn lemma_table_flags()
    ensures
        (EntryFlags { bits: PRESENT }).valid(),
        (EntryFlags { bits: PRESENT }).is_present(),
        !(EntryFlags { bits: PRESENT }).is_huge(),
        (EntryFlags { bits: WRITABLE }).valid(),
        !(EntryFlags { bits: WRITABLE }).is_present(),
        !(EntryFlags { bits: WRITABLE }).is_huge(),
        (WRITABLE | PRESENT) == (PRESENT | WRITABLE),
        (PRESENT | WRITABLE) != 0,
{
    assert(PRESENT & !ALL_FLAGS == 0 && PRESENT & PRESENT != 0 && PRESENT & HUGE_PAGE == 0
        && WRITABLE & !ALL_FLAGS == 0 && WRITABLE & PRESENT == 0 && WRITABLE & HUGE_PAGE == 0 && (
    WRITABLE | PRESENT) == (PRESENT | WRITABLE) && (PRESENT | WRITABLE) != 0) by (bit_vector);
}

/// Testing a set of flags for the present flag or the huge flag says
/// whether the flag is set, and a set with the present flag is not empty.
pub proof fn lemma_flag_tests(flags: EntryFlags)
    ensures
        flags.spec_contains(EntryFlags { bits: PRESENT }) == flags.is_present(),
        flags.spec_contains(EntryFlags { bits: HUGE_PAGE }) == flags.is_huge(),
        (flags.bits | PRESENT) != 0,
{
    let b = flags.bits;
    assert(((b & PRESENT == PRESENT) == (b & PRESENT != 0)) && ((b & HUGE_PAGE == HUGE_PAGE) == (b
        & HUGE_PAGE != 0)) && (b | PRESENT) != 0) by (bit_vector);
}

/// Two pages share the path down from a level if they share the index at
/// that level and the path down from the level below.
pub proof fn lemma_same_path_step(a: Page, b: Page, level: int)
    requires
        level >= 1,
    ensures
        same_path(a, b, level) == (a.index(level) == b.index(level) && same_path(a, b, level - 1)),
{
    if a.index(level) == b.index(level) && same_path(a, b, level - 1) {
        assert forall|l: int| 1 <= l <= level implies #[trigger] a.index(l) == b.index(l) by {
            if l < level {
                assert(1 <= l <= level - 1);
            }
        }
    }
    if same_path(a, b, level) {
        assert(a.index(level) == b.index(level));
        assert forall|l: int| 1 <= l <= level - 1 implies #[trigger] a.index(l) == b.index(l) by {
            assert(1 <= l <= level);
        }
    }
}

/// Where only the entry at `index` changes whether it is live, the number
/// of live entries changes by that entry alone.
pub proof fn lemma_live_count_update(
    before: Seq<Entry>,
    after: Seq<Entry>,
    level: int,
    index: int,
    n: nat,
)
    requires
        n <= before.len(),
        before.len() == after.len(),
        forall|j: int|
            0 <= j < n && j != index ==> is_live(#[trigger] after[j], level, j) == is_live(
                before[j],
                level,
                j,
            ),
    ensures
        live_count(after, level, n) == live_count(before, level, n) + (if 0 <= index < n {
            (if is_live(after[index], level, index) {
                1int
            } else {
                0int
            }) - (if is_live(before[index], level, index) {
                1int
            } else {
                0int
            })
        } else {
            0int
        }),
    decreases n,
{
    if n > 0 {
        lemma_live_count_update(before, after, level, index, (n - 1) as nat);
    }
}

/// Where the entry at `index` is not live, fewer than 512 entries are.
pub proof fn lemma_live_count_update_bound(entries: Seq<Entry>, level: int, index: int)
    requires
        entries.len() == 512,
        0 <= index < 512,
        !is_live(entries[index], level, index),
    ensures
        live_count(entries, level, 512) < 512,
{
    lemma_live_count_skip(entries, level, index, 512);
}

/// The entries before `n`, one of which is not live, hold fewer than `n`
/// live ones.
proof fn lemma_live_count_skip(entries: Seq<Entry>, level: int, index: int, n: nat)
    requires
        n <= entries.len(),
        0 <= index,
        !is_live(entries[index], level, index),
    ensures
        live_count(entries, level, n) <= n,
        index < n ==> live_count(entries, level, n) < n,
    decreases n,
{
    if n > 0 {
        lemma_live_count_skip(entries, level, index, (n - 1) as nat);
    }
}

/// Among the first `n` entries at most `n` are live, and none is where all
/// of them are unused.
pub proof fn lemma_live_count_bounds(entries: Seq<Entry>, level: int, n: nat)
    ensures
        live_count(entries, level, n) <= n,
        (forall|i: int| 0 <= i < n ==> !is_live(#[trigger] entries[i], level, i)) ==> live_count(
            entries,
            level,
            n,
        ) == 0,
        live_count(entries, level, n) == 0 ==> forall|i: int|
            0 <= i < n ==> !is_live(#[trigger] entries[i], level, i),
    decreases n,
{
    if n > 0 {
        lemma_live_count_bounds(entries, level, (n - 1) as nat);
    }
}

} // verus!
