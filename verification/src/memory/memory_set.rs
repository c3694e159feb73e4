//! The description of an address space: a list of areas of virtual memory
//! that do not overlap.

use vstd::prelude::*;
use crate::consts::RECURSIVE_PAGE_OFFSET;
use crate::memory::address::{PAddr, VirtualAddress};
use crate::memory::frame::{Frame, FrameAllocator};
use crate::paging::entry::EntryFlags;
use crate::paging::mapper::{mappable, Mapper};
use crate::paging::table::{new_mapping, MapError, Table};
use crate::paging::{is_canonical, Page};

verus! {

/// One area of virtual memory: the addresses from `start_addr` up to, not
/// including, `end_addr`, the flags with which its pages are mapped, and,
/// where the area shows a fixed piece of physical memory, the physical
/// address that its first byte is mapped to.
#[derive(Debug, Eq, PartialEq, Copy, Clone)]
pub struct MemoryArea {
    pub start_addr: VirtualAddress,
    pub end_addr: VirtualAddress,
    pub phys_start_addr: Option<PAddr>,
    pub flags: EntryFlags,
    pub name: &'static str,
}

impl MemoryArea {
    /// The number of the first page that the area touches.
    pub open spec fn first_page(&self) -> int {
        self.start_addr as int / 4096
    }

    /// The number of the page behind the last one that the area touches.
    pub open spec fn end_page(&self) -> int {
        if self.end_addr == 0 {
            0
        } else {
            (self.end_addr - 1) / 4096 + 1
        }
    }

    /// The number of pages that the area touches, where it is not empty.
    pub open spec fn page_count(&self) -> nat {
        if self.start_addr < self.end_addr {
            (self.end_page() - self.first_page()) as nat
        } else {
            0
        }
    }

    /// The area touches the page with this number, if only in part.
    pub open spec fn has_page(&self, page: int) -> bool {
        self.first_page() <= page < self.end_page()
    }

    /// The two areas touch a common page.
    pub open spec fn overlaps(&self, other: &MemoryArea) -> bool {
        !(self.end_page() <= other.first_page() || self.first_page() >= other.end_page())
    }

    /// The address lies in the area.
    pub open spec fn spec_contains(&self, addr: VirtualAddress) -> bool {
        self.start_addr <= addr < self.end_addr
    }

    /// An area whose pages are mapped to frames that are allocated for
    /// them.
    pub fn new(start_addr: VirtualAddress, end_addr: VirtualAddress, flags: EntryFlags, name: &'static str) -> (area:
        MemoryArea)
        requires
            start_addr <= end_addr,
        ensures
            area == (MemoryArea { start_addr, end_addr, phys_start_addr: None, flags, name }),
    {
        MemoryArea { start_addr, end_addr, phys_start_addr: None, flags, name }
    }

    /// An area that shows the physical memory with the same addresses.
    pub fn new_identity(
        start_addr: VirtualAddress,
        end_addr: VirtualAddress,
        flags: EntryFlags,
        name: &'static str,
    ) -> (area: MemoryArea)
        requires
            start_addr <= end_addr,
        ensures
            area == (MemoryArea {
                start_addr,
                end_addr,
                phys_start_addr: Some(PAddr(start_addr)),
                flags,
                name,
            }),
    {
        MemoryArea { start_addr, end_addr, phys_start_addr: Some(PAddr(start_addr)), flags, name }
    }

    /// An area of the kernel window: it shows the physical memory that
    /// lies as far from address 0 as the area lies from the start of the
    /// window.
    pub fn new_kernel(
        start_addr: VirtualAddress,
        end_addr: VirtualAddress,
        flags: EntryFlags,
        name: &'static str,
    ) -> (area: MemoryArea)
        requires
            start_addr <= end_addr,
            crate::consts::KERNEL_OFFSET <= start_addr < crate::consts::KERNEL_OFFSET
                + crate::consts::KERNEL_SIZE,
        ensures
            area == (MemoryArea {
                start_addr,
                end_addr,
                phys_start_addr: Some(PAddr((start_addr - crate::consts::KERNEL_OFFSET) as u64)),
                flags,
                name,
            }),
    {
        MemoryArea {
            start_addr,
            end_addr,
            phys_start_addr: Some(PAddr::from_kernel_virtual(start_addr)),
            flags,
            name,
        }
    }

    /// Whether the address lies in the area.
    pub fn contains(&self, addr: VirtualAddress) -> (result: bool)
        ensures
            result == self.spec_contains(addr),
    {
        addr >= self.start_addr && addr < self.end_addr
    }

    /// The name of the area.
    pub fn name(&self) -> (name: &'static str)
        ensures
            name == self.name,
    {
        self.name
    }

    /// Whether the two areas touch a common page.
    pub fn is_overlap_with(&self, other: &MemoryArea) -> (result: bool)
        ensures
            result == self.overlaps(other),
    {
        let p0 = self.start_addr / 4096;
        let p1 = if self.end_addr == 0 {
            0
        } else {
            (self.end_addr - 1) / 4096 + 1
        };
        let p2 = other.start_addr / 4096;
        let p3 = if other.end_addr == 0 {
            0
        } else {
            (other.end_addr - 1) / 4096 + 1
        };
        !(p1 <= p2 || p0 >= p3)
    }
}

/// No two areas of the list touch a common page.
pub open spec fn pairwise_disjoint(areas: Seq<MemoryArea>) -> bool {
    forall|i: int, j: int|
        #![trigger areas[i], areas[j]]
        0 <= i < areas.len() && 0 <= j < areas.len() && i != j ==> !areas[i].overlaps(&areas[j])
}

/// Areas that do not overlap share no page: the ranges of pages that they
/// touch do not intersect.
pub proof fn lemma_disjoint_areas_share_no_page(areas: Seq<MemoryArea>, i: int, j: int, page: int)
    requires
        pairwise_disjoint(areas),
        0 <= i < areas.len(),
        0 <= j < areas.len(),
        i != j,
    ensures
        !(areas[i].has_page(page) && areas[j].has_page(page)),
        areas[i].end_page() <= areas[j].first_page() || areas[j].end_page() <= areas[i].first_page(),
{
    assert(!areas[i].overlaps(&areas[j]));
}

/// A set of memory areas, in the order in which they were put in.
pub struct MemorySet {
    areas: Vec<MemoryArea>,
}

impl MemorySet {
    /// No two areas of the set touch a common page. This holds of every set
    /// that was made by `new` and `push`.
    pub open spec fn wf(&self) -> bool {
        pairwise_disjoint(self@)
    }

    /// The areas of the set, in the order in which they were put in.
    pub closed spec fn view(&self) -> Seq<MemoryArea> {
        self.areas@
    }

    /// The empty set.
    pub fn new() -> (set: MemorySet)
        ensures
            set@ == Seq::<MemoryArea>::empty(),
            set.wf(),
    {
        MemorySet { areas: Vec::new() }
    }

    /// The first area that the address lies in, if there is one.
    pub fn find_area(&self, addr: VirtualAddress) -> (area: Option<&MemoryArea>)
        ensures
            match area {
                Some(a) => exists|i: int|
                    0 <= i < self@.len() && *a == #[trigger] self@[i] && a.spec_contains(addr)
                        && forall|j: int| 0 <= j < i ==> !(#[trigger] self@[j]).spec_contains(addr),
                None => forall|i: int| 0 <= i < self@.len() ==> !(#[trigger] self@[i]).spec_contains(addr),
            },
    {
        let mut i: usize = 0;
        while i < self.areas.len()
            invariant
                i <= self.areas@.len(),
                forall|j: int| 0 <= j < i ==> !(#[trigger] self.areas@[j]).spec_contains(addr),
            decreases self.areas@.len() - i,
        {
            if self.areas[i].contains(addr) {
                assert(self@[i as int].spec_contains(addr));
                return Some(&self.areas[i]);
            }
            i += 1;
        }
        None
    }

    /// Puts `area` into the set, unless it touches a page that an area of
    /// the set touches already: then the set stays as it is and the area is
    /// turned down.
    pub fn push(&mut self, area: MemoryArea) -> (result: Result<(), MapError>)
        requires
            old(self).wf(),
        ensures
            result is Ok <==> forall|i: int|
                0 <= i < old(self)@.len() ==> !area.overlaps(&#[trigger] old(self)@[i]),
            result is Ok ==> final(self)@ == old(self)@.push(area),
            result is Err ==> final(self)@ == old(self)@ && result == Err::<(), MapError>(
                MapError::RangeInUse,
            ),
            final(self).wf(),
    {
        let mut i: usize = 0;
        while i < self.areas.len()
            invariant
                i <= self.areas@.len(),
                *self == *old(self),
                self.wf(),
                forall|j: int| 0 <= j < i ==> !area.overlaps(&#[trigger] self.areas@[j]),
            decreases self.areas@.len() - i,
        {
            if area.is_overlap_with(&self.areas[i]) {
                assert(area.overlaps(&old(self)@[i as int]));
                return Err(MapError::RangeInUse);
            }
            i += 1;
        }
        self.areas.push(area);
        proof {
            let before = old(self)@;
            let after = self@;
            assert forall|i: int, j: int|
                #![trigger after[i], after[j]]
                0 <= i < after.len() && 0 <= j < after.len() && i != j implies !after[i].overlaps(
                &after[j],
            ) by {
                if i < before.len() && j < before.len() {
                    assert(!before[i].overlaps(&before[j]));
                } else if i < before.len() {
                    assert(!area.overlaps(&before[i]));
                } else {
                    assert(!area.overlaps(&before[j]));
                }
            }
        }
        Ok(())
    }

    /// The areas of the set, in the order in which they were put in.
    pub fn iter(&self) -> (areas: &Vec<MemoryArea>)
        ensures
            areas@ == self@,
    {
        &self.areas
    }

    /// The number of areas.
    pub fn len(&self) -> (len: usize)
        ensures
            len == self@.len(),
    {
        self.areas.len()
    }
}

impl MemoryArea {
    /// The area is not empty and touches the page with this number: the
    /// page is mapped when the area is.
    pub open spec fn maps_page(&self, page: int) -> bool {
        self.start_addr < self.end_addr && self.has_page(page)
    }

    /// The number of the frame that the page with the number `page` of an
    /// area with a fixed physical start is mapped to: the frame that lies
    /// as far behind the physical start as the page lies behind the start
    /// of the area.
    pub open spec fn frame_for(&self, page: int) -> int {
        (self.phys_start_addr.unwrap().0 + page * 4096 - self.start_addr) / 4096
    }

    /// The area can be mapped: its flags are flags; its addresses are
    /// canonical, lie in one half of the address space and below the slot
    /// of the recursive mapping; and where it has a fixed physical start,
    /// its pages fall on frames of physical memory.
    pub open spec fn mappable(&self) -> bool {
        &&& self.flags.valid()
        &&& self.start_addr < self.end_addr ==> {
            &&& is_canonical(self.start_addr)
            &&& is_canonical((self.end_addr - 1) as u64)
            &&& (self.start_addr < 0x0000_8000_0000_0000) == (self.end_addr - 1
                < 0x0000_8000_0000_0000)
            &&& self.end_addr - 1 < RECURSIVE_PAGE_OFFSET
            &&& self.phys_start_addr matches Some(p) ==> p.0 + self.first_page() * 4096
                >= self.start_addr && p.0 + (self.end_page() - 1) * 4096 - self.start_addr
                < 0x0010_0000_0000_0000
        }
    }

    /// Whether the area is not empty and touches the page with the number
    /// `page`.
    pub fn touches_page(&self, page: u64) -> (result: bool)
        ensures
            result == self.maps_page(page as int),
    {
        self.start_addr < self.end_addr && self.start_addr / 4096 <= page && page <= (self.end_addr
            - 1) / 4096
    }

    /// Whether the area can be mapped.
    pub fn is_mappable(&self) -> (result: bool)
        ensures
            result == self.mappable(),
    {
        if self.flags.bits & !crate::paging::entry::ALL_FLAGS != 0 {
            return false;
        }
        if self.start_addr >= self.end_addr {
            return true;
        }
        let last = self.end_addr - 1;
        let low = self.start_addr < 0x0000_8000_0000_0000 && last < 0x0000_8000_0000_0000;
        let high = self.start_addr >= 0xffff_8000_0000_0000 && last < RECURSIVE_PAGE_OFFSET;
        if !(low || high) {
            return false;
        }
        match self.phys_start_addr {
            Some(p) => {
                let first_start = (self.start_addr / 4096) * 4096;
                let last_start = (last / 4096) * 4096;
                let shift = self.start_addr - first_start;
                p.0 >= shift && (p.0 as u128) + (last_start as u128) < (self.start_addr as u128)
                    + 0x0010_0000_0000_0000
            },
            None => true,
        }
    }
}

/// One of the first `upto` areas is mapped at the page with this number.
pub open spec fn covered(areas: Seq<MemoryArea>, upto: int, page: int) -> bool {
    exists|k: int| 0 <= k < upto && #[trigger] areas[k].maps_page(page)
}

/// `pt` maps the page with the number `page` as `area` asks: by an entry of
/// a leaf table, with the flags of the area and the present flag, and, where
/// the area has a fixed physical start, to the frame that belongs to the
/// page.
pub open spec fn mapped_as(pt: Table, area: MemoryArea, page: int) -> bool {
    &&& pt.maps_small(Page { number: page as u64 })
    &&& pt.lookup(Page { number: page as u64 }) matches Some(m) && m.flags == new_mapping(
        m.frame,
        area.flags,
    ).flags && (area.phys_start_addr is Some ==> m.frame.number == area.frame_for(page))
}

/// A page that a mappable area is mapped at can be mapped.
pub proof fn lemma_area_pages_are_mappable(area: MemoryArea, page: int)
    requires
        area.mappable(),
        area.maps_page(page),
    ensures
        0 <= page <= 0x000f_ffff_ffff_ffff,
        mappable(Page { number: page as u64 }),
        area.phys_start_addr is Some ==> 0 <= area.frame_for(page) <= crate::memory::frame::MAX_FRAME_NUMBER
            && area.phys_start_addr.unwrap().0 + page * 4096 - area.start_addr >= 0,
{
    let n = page as u64;
    assert(n <= 0x000f_ffff_f7ff_ffff && (n < 0x0000_0008_0000_0000 || (0x000f_fff8_0000_0000 <= n
        <= 0x000f_ffff_ffff_ffff)) ==> (n >> 27) & 0o777 != 511) by (bit_vector);
}

/// The page with the number `page` belongs to an area without a fixed
/// physical start: it is mapped to a frame of its own.
pub open spec fn own_page(areas: Seq<MemoryArea>, page: int) -> bool {
    exists|k: int| 0 <= k < areas.len() && #[trigger] areas[k].maps_page(page) && areas[k].phys_start_addr is None
}

/// The number of the frame that `pt` maps the page with the number `page`
/// to.
pub open spec fn frame_at(pt: Mapper, page: int) -> int {
    pt.lookup(Page { number: page as u64 }).unwrap().frame.number as int
}

/// The page with the number `page` is one of the first `i` areas, or one
/// of the area `i` below the page `n`.
pub open spec fn reached(areas: Seq<MemoryArea>, i: int, n: int, page: int) -> bool {
    covered(areas, i, page) || (0 <= i < areas.len() && areas[i].maps_page(page) && page < n)
}

/// The frames of the pages that were reached and that have frames of their
/// own were handed out by the allocator, which was `start` then and is
/// `now`: every one could be handed out at the start; where the allocator
/// holds no frame twice, none can be handed out now, and no two pages have
/// the same.
pub open spec fn own_frames<A: FrameAllocator>(
    areas: Seq<MemoryArea>,
    i: int,
    n: int,
    pt: Mapper,
    start: A,
    now: A,
) -> bool {
    &&& forall|m: int| own_page(areas, m) && reached(areas, i, n, m) ==> start.available(#[trigger] frame_at(pt, m))
    &&& start.exclusive() ==> forall|m: int|
        own_page(areas, m) && reached(areas, i, n, m) ==> !now.available(#[trigger] frame_at(pt, m))
    &&& start.exclusive() ==> forall|a: int, b: int|
        own_page(areas, a) && reached(areas, i, n, a) && own_page(areas, b) && reached(areas, i, n, b) && a
            != b ==> #[trigger] frame_at(pt, a) != #[trigger] frame_at(pt, b)
}

/// One more page keeps the frames of the pages apart: the page `n` of the
/// area `i` is mapped, to a frame that the allocator handed out where the
/// area has no fixed physical start, and every other page stays.
pub proof fn lemma_own_frames_step<A: FrameAllocator>(
    areas: Seq<MemoryArea>,
    i: int,
    n: int,
    before: Mapper,
    after: Mapper,
    start: A,
    middle: A,
    now: A,
)
    requires
        pairwise_disjoint(areas),
        forall|k: int| 0 <= k < areas.len() ==> (#[trigger] areas[k]).mappable(),
        0 <= i < areas.len(),
        areas[i].maps_page(n),
        own_frames(areas, i, n, before, start, middle),
        forall|g: int| #[trigger] middle.available(g) ==> start.available(g),
        forall|g: int| #[trigger] now.available(g) ==> middle.available(g),
        start.exclusive() ==> middle.exclusive(),
        forall|q: Page|
            q.valid() && q != (Page { number: n as u64 }) ==> #[trigger] after.lookup(q) == before.lookup(q),
        areas[i].phys_start_addr is None ==> middle.available(frame_at(after, n)) && (middle.exclusive()
            ==> !now.available(frame_at(after, n))),
    ensures
        own_frames(areas, i, n + 1, after, start, now),
{
    lemma_area_pages_are_mappable(areas[i], n);
    assert forall|m: int| reached(areas, i, n + 1, m) && m != n implies reached(areas, i, n, m)
        && frame_at(after, m) == frame_at(before, m) by {
        if covered(areas, i, m) {
            let k = choose|k: int| 0 <= k < i && #[trigger] areas[k].maps_page(m);
            lemma_area_pages_are_mappable(areas[k], m);
        } else {
            lemma_area_pages_are_mappable(areas[i], m);
        }
        let q = Page { number: m as u64 };
        assert(q != (Page { number: n as u64 }));
        assert(after.lookup(q) == before.lookup(q));
    }
    // The page is one with a frame of its own only through its area.
    if own_page(areas, n) {
        let k = choose|k: int| 0 <= k < areas.len() && #[trigger] areas[k].maps_page(n) && areas[k].phys_start_addr is None;
        if k != i {
            lemma_disjoint_areas_share_no_page(areas, k, i, n);
        }
        assert(areas[i].phys_start_addr is None);
    }
    assert forall|m: int| own_page(areas, m) && reached(areas, i, n + 1, m) implies start.available(
        #[trigger] frame_at(after, m),
    ) by {
        if m != n {
            assert(start.available(frame_at(before, m)));
        }
    }
    if start.exclusive() {
        assert forall|m: int| own_page(areas, m) && reached(areas, i, n + 1, m) implies !now.available(
            #[trigger] frame_at(after, m),
        ) by {
            if m != n {
                assert(!middle.available(frame_at(before, m)));
            }
        }
        assert forall|a: int, b: int|
            own_page(areas, a) && reached(areas, i, n + 1, a) && own_page(areas, b) && reached(
                areas,
                i,
                n + 1,
                b,
            ) && a != b implies #[trigger] frame_at(after, a) != #[trigger] frame_at(after, b) by {
            if a != n && b != n {
                assert(frame_at(before, a) != frame_at(before, b));
            } else if a == n {
                assert(!middle.available(frame_at(before, b)));
            } else {
                assert(!middle.available(frame_at(before, a)));
            }
        }
    }
}

/// Two pages of areas without a fixed physical start that were mapped by
/// `MemorySet::map` from an allocator that holds no frame twice translate to
/// two frames of physical memory: each by an entry of a leaf table, not as
/// part of a huge block.
///
/// The hypotheses are what `map` ensures on success of the mapper `pt`
/// afterwards, the allocator `start` before and the allocator `now`
/// afterwards.
pub proof fn lemma_own_pages_translate_apart<A: FrameAllocator>(
    areas: Seq<MemoryArea>,
    pt: Mapper,
    start: A,
    now: A,
    a: int,
    b: int,
)
    requires
        pt.wf(),
        start.exclusive(),
        own_frames(areas, areas.len() as int, 0, pt, start, now),
        forall|k: int, n: int|
            0 <= k < areas.len() && #[trigger] areas[k].maps_page(n) ==> mapped_as(pt.spec_p4(), areas[k], n),
        own_page(areas, a),
        own_page(areas, b),
        a != b,
    ensures
        pt.maps_small(Page { number: a as u64 }),
        pt.maps_small(Page { number: b as u64 }),
        pt.translated(Page { number: a as u64 }) matches Some(fa) && pt.translated(Page { number: b as u64 })
            matches Some(fb) && fa.valid() && fb.valid() && fa != fb,
{
    let ka = choose|k: int| 0 <= k < areas.len() && #[trigger] areas[k].maps_page(a) && areas[k].phys_start_addr is None;
    let kb = choose|k: int| 0 <= k < areas.len() && #[trigger] areas[k].maps_page(b) && areas[k].phys_start_addr is None;
    assert(mapped_as(pt.spec_p4(), areas[ka], a));
    assert(mapped_as(pt.spec_p4(), areas[kb], b));
    pt.spec_p4().lemma_small_is_mapped(Page { number: a as u64 });
    pt.spec_p4().lemma_small_is_mapped(Page { number: b as u64 });
    assert(covered(areas, areas.len() as int, a));
    assert(covered(areas, areas.len() as int, b));
    assert(reached(areas, areas.len() as int, 0, a));
    assert(reached(areas, areas.len() as int, 0, b));
    assert(frame_at(pt, a) != frame_at(pt, b));
}

/// The number of pages of the first `n` areas.
pub open spec fn pages_of(areas: Seq<MemoryArea>, n: int) -> nat
    decreases n,
{
    if n <= 0 {
        0
    } else {
        pages_of(areas, n - 1) + areas[n - 1].page_count()
    }
}

/// A number of frames that suffices to map the areas, whatever tables are
/// there: four for every page, one for the page and one for each of the
/// three tables on the way to it.
pub open spec fn frames_for(areas: Seq<MemoryArea>) -> nat {
    4 * pages_of(areas, areas.len() as int)
}

/// More areas have no fewer pages.
pub proof fn lemma_pages_of_grow(areas: Seq<MemoryArea>, i: int, j: int)
    requires
        0 <= i <= j,
    ensures
        pages_of(areas, i) <= pages_of(areas, j),
    decreases j - i,
{
    if i < j {
        lemma_pages_of_grow(areas, i, j - 1);
    }
}

/// Every area has a fixed physical start, and `pt` has the tables for every
/// page of every area.
pub open spec fn fixed_with_tables(areas: Seq<MemoryArea>, pt: Mapper) -> bool {
    forall|k: int, n: int|
        0 <= k < areas.len() && #[trigger] areas[k].maps_page(n) ==> areas[k].phys_start_addr is Some
            && pt.has_tables_for(Page { number: n as u64 })
}

impl MemorySet {
    /// Every area of the set can be mapped.
    pub open spec fn mappable(&self) -> bool {
        forall|i: int| 0 <= i < self@.len() ==> (#[trigger] self@[i]).mappable()
    }

    /// Maps every page of every area in `pt`.
    ///
    /// A page of an area with a fixed physical start is mapped to the frame
    /// that lies as far behind that start as the page lies behind the start
    /// of the area; a page of another area is mapped to a frame that
    /// `allocator` hands out for it. The flags are those of the area. The
    /// promises to flush are given up: the tables that are built this way
    /// are not loaded.
    ///
    /// On success every page of the set is mapped as its area asks. The call
    /// fails where the allocator runs out of frames; pages of the set may
    /// then be mapped or not. Either way every page outside the set is
    /// mapped as before.
    pub fn map<A: FrameAllocator>(&self, pt: &mut Mapper, allocator: &mut A) -> (result: Result<
        (),
        MapError,
    >)
        requires
            self.wf(),
            self.mappable(),
            old(pt).wf(),
            old(allocator).wf(),
            forall|k: int, n: int|
                0 <= k < self@.len() && #[trigger] self@[k].maps_page(n) ==> old(pt).lookup(
                    Page { number: n as u64 },
                ).is_none(),
        ensures
            final(pt).wf(),
            final(allocator).wf(),
            final(pt).spec_p4().recursive_frame() == old(pt).spec_p4().recursive_frame(),
            forall|g: int| #[trigger] final(allocator).available(g) ==> old(allocator).available(g),
            old(allocator).exclusive() ==> final(allocator).exclusive(),
            forall|q: Page|
                q.valid() && !covered(self@, self@.len() as int, q.number as int) ==> #[trigger] final(pt).lookup(q) == old(pt).lookup(q),
            forall|q: Page|
                q.valid() && !covered(self@, self@.len() as int, q.number as int) ==> #[trigger] final(pt).maps_small(q) == old(pt).maps_small(q),
            result is Ok ==> forall|k: int, n: int|
                0 <= k < self@.len() && #[trigger] self@[k].maps_page(n) ==> mapped_as(
                    final(pt).spec_p4(),
                    self@[k],
                    n,
                ),
            result is Err ==> result == Err::<(), MapError>(MapError::OutOfMemory),
            // No frame is needed, and so none can be missing, where every
            // area has a fixed physical start and the tables for every page
            // are there.
            fixed_with_tables(self@, *old(pt)) ==> result is Ok,
            // The call succeeds where the allocator promises four frames for
            // every page, and takes no more than that.
            old(allocator).promises(frames_for(self@)) ==> result is Ok,
            result is Ok ==> forall|n: nat|
                old(allocator).promises(n + frames_for(self@)) ==> #[trigger] final(allocator).promises(n),
            // The pages of areas without a fixed physical start lie in
            // frames that the allocator handed out, each in one of its own.
            result is Ok ==> own_frames(
                self@,
                self@.len() as int,
                0,
                *final(pt),
                *old(allocator),
                *final(allocator),
            ),
            // The promises to flush are given up, so the pages that were
            // mapped are stale: on success every page of the set.
            forall|q: Page| old(pt).stale().contains(q) ==> #[trigger] final(pt).stale().contains(q),
            forall|q: Page| #[trigger]
                final(pt).stale().contains(q) ==> old(pt).stale().contains(q) || covered(
                    self@,
                    self@.len() as int,
                    q.number as int,
                ),
            result is Ok ==> forall|q: Page|
                covered(self@, self@.len() as int, q.number as int) ==> #[trigger] final(pt).stale().contains(q),
            forall|q: Page| old(pt).has_tables_for(q) ==> #[trigger] final(pt).has_tables_for(q),
    {
        let ghost areas = self@;
        let mut i: usize = 0;
        while i < self.areas.len()
            invariant
                i <= areas.len(),
                areas == self@,
                self.wf(),
                self.mappable(),
                pt.wf(),
                allocator.wf(),
                pt.spec_p4().recursive_frame() == old(pt).spec_p4().recursive_frame(),
                forall|g: int| #[trigger] allocator.available(g) ==> old(allocator).available(g),
                old(allocator).exclusive() ==> allocator.exclusive(),
                forall|q: Page| old(pt).has_tables_for(q) ==> #[trigger] pt.has_tables_for(q),
                forall|m: nat|
                    old(allocator).promises(m + 4 * pages_of(areas, i as int)) ==> #[trigger] allocator.promises(m),
                own_frames(areas, i as int, 0, *pt, *old(allocator), *allocator),
                forall|q: Page| #[trigger]
                    pt.stale().contains(q) == (old(pt).stale().contains(q) || covered(
                        areas,
                        i as int,
                        q.number as int,
                    )),
                forall|k: int, n: int|
                    0 <= k < areas.len() && #[trigger] areas[k].maps_page(n) ==> old(pt).lookup(
                        Page { number: n as u64 },
                    ).is_none(),
                forall|q: Page|
                    q.valid() && !covered(areas, i as int, q.number as int) ==> #[trigger] pt.lookup(q)
                        == old(pt).lookup(q),
                forall|q: Page|
                    q.valid() && !covered(areas, i as int, q.number as int) ==> #[trigger] pt.maps_small(
                        q,
                    ) == old(pt).maps_small(q),
                forall|k: int, n: int|
                    0 <= k < i && #[trigger] areas[k].maps_page(n) ==> mapped_as(pt.spec_p4(), areas[k], n),
            decreases areas.len() - i,
        {
            let area = self.areas[i];
            assert(area == areas[i as int]);
            assert(area.mappable());
            if area.start_addr < area.end_addr {
                let first = area.start_addr / 4096;
                let last = (area.end_addr - 1) / 4096;
                let mut n = first;
                proof {
                    assert forall|m: int| reached(areas, i as int, n as int, m) implies reached(
                        areas,
                        i as int,
                        0,
                        m,
                    ) by {}
                }
                while n <= last
                    invariant
                        i < areas.len(),
                        areas == self@,
                        area == areas[i as int],
                        area.start_addr < area.end_addr,
                        first == area.first_page(),
                        last == area.end_page() - 1,
                        first <= n <= last + 1,
                        self.wf(),
                        self.mappable(),
                        pt.wf(),
                        allocator.wf(),
                        pt.spec_p4().recursive_frame() == old(pt).spec_p4().recursive_frame(),
                        forall|g: int| #[trigger]
                            allocator.available(g) ==> old(allocator).available(g),
                        old(allocator).exclusive() ==> allocator.exclusive(),
                        forall|q: Page| old(pt).has_tables_for(q) ==> #[trigger] pt.has_tables_for(q),
                        forall|m: nat|
                            old(allocator).promises((m + 4 * (pages_of(areas, i as int) + (n - first))) as nat)
                                ==> #[trigger] allocator.promises(m),
                        own_frames(areas, i as int, n as int, *pt, *old(allocator), *allocator),
                        forall|q: Page| #[trigger]
                            pt.stale().contains(q) == (old(pt).stale().contains(q) || covered(
                                areas,
                                i as int,
                                q.number as int,
                            ) || (area.maps_page(q.number as int) && q.number < n)),
                        forall|k: int, m: int|
                            0 <= k < areas.len() && #[trigger] areas[k].maps_page(m) ==> old(pt).lookup(Page { number: m as u64 }).is_none(),
                        forall|q: Page|
                            q.valid() && !covered(areas, i as int, q.number as int) && !(
                            area.maps_page(q.number as int) && q.number < n) ==> #[trigger] pt.lookup(
                                q,
                            ) == old(pt).lookup(q),
                        forall|q: Page|
                            q.valid() && !covered(areas, i as int, q.number as int) && !(
                            area.maps_page(q.number as int) && q.number < n) ==> #[trigger] pt.maps_small(
                                q,
                            ) == old(pt).maps_small(q),
                        forall|k: int, m: int|
                            0 <= k < i && #[trigger] areas[k].maps_page(m) ==> mapped_as(
                                pt.spec_p4(),
                                areas[k],
                                m,
                            ),
                        forall|m: int|
                            #[trigger] area.maps_page(m) && m < n ==> mapped_as(pt.spec_p4(), area, m),
                    decreases last + 1 - n,
                {
                    let page = Page { number: n };
                    let ghost before = *pt;
                    let ghost middle = *allocator;
                    let ghost missing = pt.missing_tables(page);
                    let ghost reached_pages = pages_of(areas, i as int) + (n - first);
                    let ghost total = pages_of(areas, areas.len() as int);
                    proof {
                        pt.spec_p4().lemma_missing_tables(page);
                        lemma_pages_of_grow(areas, i + 1, areas.len() as int);
                        assert(reached_pages + 1 <= total);
                        if old(allocator).promises(frames_for(areas)) {
                            assert(middle.promises((4 * (total - reached_pages)) as nat));
                            middle.lemma_promises((4 * (total - reached_pages)) as nat, 1 + missing);
                            middle.lemma_promises((4 * (total - reached_pages)) as nat, missing);
                        }
                    }
                    proof {
                        assert(area.maps_page(n as int));
                        lemma_area_pages_are_mappable(area, n as int);
                        // The page is still mapped as at the start: no area
                        // before this one touches it.
                        if covered(areas, i as int, n as int) {
                            let k = choose|k: int| 0 <= k < i && #[trigger] areas[k].maps_page(n as int);
                            assert(areas[k].overlaps(&areas[i as int]));
                        }
                        assert(pt.lookup(page) == old(pt).lookup(page));
                    }
                    let mapped = match area.phys_start_addr {
                        Some(phys) => {
                            let page_start = page.start_address();
                            let address = if page_start >= area.start_addr {
                                phys.0 + (page_start - area.start_addr)
                            } else {
                                phys.0 - (area.start_addr - page_start)
                            };
                            let frame = Frame::containing_address(address);
                            pt.map_to(page, frame, area.flags, allocator)
                        },
                        None => pt.map(page, area.flags, allocator),
                    };
                    match mapped {
                        Ok(flush) => {
                            flush.ignore();
                        },
                        Err(e) => {
                            proof {
                                assert(!old(allocator).promises(frames_for(areas)));
                                if fixed_with_tables(areas, *old(pt)) {
                                    assert(areas[i as int].maps_page(n as int));
                                    assert(old(pt).has_tables_for(page));
                                    assert(before.has_tables_for(page));
                                }
                                assert forall|q: Page| old(pt).has_tables_for(q) implies #[trigger] pt.has_tables_for(
                                    q,
                                ) by {
                                    assert(before.has_tables_for(q));
                                }
                                assert(pt.stale() == before.stale());
                                assert forall|q: Page| #[trigger] pt.stale().contains(q) implies old(pt).stale().contains(
                                    q,
                                ) || covered(areas, areas.len() as int, q.number as int) by {
                                    assert(before.stale().contains(q));
                                    if covered(areas, i as int, q.number as int) {
                                        let k = choose|k: int|
                                            0 <= k < i && #[trigger] areas[k].maps_page(q.number as int);
                                        assert(areas[k].maps_page(q.number as int));
                                    }
                                    if area.maps_page(q.number as int) {
                                        assert(areas[i as int].maps_page(q.number as int));
                                    }
                                }
                                assert forall|q: Page| old(pt).stale().contains(q) implies #[trigger] pt.stale().contains(
                                    q,
                                ) by {
                                    assert(before.stale().contains(q));
                                }
                            }
                            proof {
                                assert forall|q: Page|
                                    q.valid() && !covered(
                                        areas,
                                        areas.len() as int,
                                        q.number as int,
                                    ) implies #[trigger] pt.lookup(q) == old(pt).lookup(q) by {
                                    assert(before.lookup(q) == old(pt).lookup(q)) by {
                                        if covered(areas, i as int, q.number as int) {
                                            let k = choose|k: int|
                                                0 <= k < i && #[trigger] areas[k].maps_page(
                                                    q.number as int,
                                                );
                                            assert(areas[k].maps_page(q.number as int));
                                        }
                                        if area.maps_page(q.number as int) {
                                            assert(areas[i as int].maps_page(q.number as int));
                                        }
                                    }
                                }
                            }
                            proof {
                                assert forall|q: Page|
                                    q.valid() && !covered(
                                        areas,
                                        areas.len() as int,
                                        q.number as int,
                                    ) implies #[trigger] pt.maps_small(q) == old(pt).maps_small(q) by {
                                    assert(before.maps_small(q) == old(pt).maps_small(q)) by {
                                        if covered(areas, i as int, q.number as int) {
                                            let k = choose|k: int|
                                                0 <= k < i && #[trigger] areas[k].maps_page(
                                                    q.number as int,
                                                );
                                            assert(areas[k].maps_page(q.number as int));
                                        }
                                        if area.maps_page(q.number as int) {
                                            assert(areas[i as int].maps_page(q.number as int));
                                        }
                                    }
                                    assert(pt.maps_small(q) == before.maps_small(q)) by {
                                        if q == page {
                                            assert(areas[i as int].maps_page(q.number as int));
                                        }
                                    }
                                }
                            }
                            return Err(e);
                        },
                    }
                    proof {
                        assert forall|m: nat|
                            old(allocator).promises((m + 4 * (reached_pages + 1)) as nat) implies #[trigger] allocator.promises(
                            m,
                        ) by {
                            assert(middle.promises(m + 4));
                            middle.lemma_promises(m + 4, m + 1 + missing);
                            middle.lemma_promises(m + 4, m + missing);
                        }
                    }
                    proof {
                        lemma_own_frames_step(
                            areas,
                            i as int,
                            n as int,
                            before,
                            *pt,
                            *old(allocator),
                            middle,
                            *allocator,
                        );
                    }
                    proof {
                        assert forall|q: Page| old(pt).has_tables_for(q) implies #[trigger] pt.has_tables_for(
                            q,
                        ) by {
                            assert(before.has_tables_for(q));
                        }
                        assert(pt.stale() == before.stale().insert(page));
                        assert forall|q: Page| #[trigger]
                            pt.stale().contains(q) == (old(pt).stale().contains(q) || covered(
                                areas,
                                i as int,
                                q.number as int,
                            ) || (area.maps_page(q.number as int) && q.number < n + 1)) by {
                            assert(before.stale().contains(q) == (old(pt).stale().contains(q) || covered(
                                areas,
                                i as int,
                                q.number as int,
                            ) || (area.maps_page(q.number as int) && q.number < n)));
                            assert((q == page) == (q.number == n));
                        }
                    }
                    proof {
                        assert forall|q: Page|
                            q.valid() && !covered(areas, i as int, q.number as int) && !(
                            area.maps_page(q.number as int) && q.number < n + 1) implies #[trigger] pt.maps_small(
                            q,
                        ) == old(pt).maps_small(q) by {
                            assert(q != page);
                            assert(before.maps_small(q) == old(pt).maps_small(q));
                        }
                        assert forall|q: Page|
                            q.valid() && !covered(areas, i as int, q.number as int) && !(
                            area.maps_page(q.number as int) && q.number < n + 1) implies #[trigger] pt.lookup(
                            q,
                        ) == old(pt).lookup(q) by {
                            assert(q != page);
                            assert(before.lookup(q) == old(pt).lookup(q));
                        }
                        assert forall|k: int, m: int|
                            0 <= k < i && #[trigger] areas[k].maps_page(m) implies mapped_as(
                            pt.spec_p4(),
                            areas[k],
                            m,
                        ) by {
                            lemma_area_pages_are_mappable(areas[k], m);
                            let q = Page { number: m as u64 };
                            if m == n {
                                assert(areas[k].overlaps(&areas[i as int]));
                            }
                            assert(q != page);
                            assert(mapped_as(before.spec_p4(), areas[k], m));
                            assert(pt.lookup(q) == before.lookup(q));
                            assert(pt.maps_small(q) == before.maps_small(q));
                        }
                        assert forall|m: int| #[trigger] area.maps_page(m) && m < n + 1 implies mapped_as(
                            pt.spec_p4(),
                            area,
                            m,
                        ) by {
                            lemma_area_pages_are_mappable(area, m);
                            let q = Page { number: m as u64 };
                            if m < n {
                                assert(q != page);
                                assert(mapped_as(before.spec_p4(), area, m));
                                assert(pt.lookup(q) == before.lookup(q));
                                assert(pt.maps_small(q) == before.maps_small(q));
                            }
                        }
                    }
                    n += 1;
                }
            }
            proof {
                assert forall|m: int| reached(areas, i + 1, 0, m) implies reached(
                    areas,
                    i as int,
                    area.end_page(),
                    m,
                ) || reached(areas, i as int, 0, m) by {
                    if covered(areas, i + 1, m) {
                        let k = choose|k: int| 0 <= k < i + 1 && #[trigger] areas[k].maps_page(m);
                        if k < i {
                            assert(covered(areas, i as int, m));
                        }
                    }
                }
            }
            proof {
                assert forall|q: Page| #[trigger]
                    pt.stale().contains(q) == (old(pt).stale().contains(q) || covered(
                        areas,
                        i + 1,
                        q.number as int,
                    )) by {
                    if covered(areas, i as int, q.number as int) {
                        let k = choose|k: int| 0 <= k < i && #[trigger] areas[k].maps_page(q.number as int);
                        assert(areas[k].maps_page(q.number as int));
                    }
                    if area.maps_page(q.number as int) {
                        assert(areas[i as int].maps_page(q.number as int));
                    }
                    if covered(areas, i + 1, q.number as int) {
                        let k = choose|k: int| 0 <= k < i + 1 && #[trigger] areas[k].maps_page(q.number as int);
                        if k < i {
                            assert(covered(areas, i as int, q.number as int));
                        } else {
                            assert(area.maps_page(q.number as int));
                        }
                    }
                }
            }
            proof {
                assert forall|q: Page|
                    q.valid() && !covered(areas, i + 1, q.number as int) implies #[trigger] pt.maps_small(
                    q,
                ) == old(pt).maps_small(q) by {
                    if covered(areas, i as int, q.number as int) {
                        let k = choose|k: int|
                            0 <= k < i && #[trigger] areas[k].maps_page(q.number as int);
                        assert(areas[k].maps_page(q.number as int));
                    }
                    if area.maps_page(q.number as int) {
                        assert(areas[i as int].maps_page(q.number as int));
                    }
                }
                assert forall|q: Page|
                    q.valid() && !covered(areas, i + 1, q.number as int) implies #[trigger] pt.lookup(
                    q,
                ) == old(pt).lookup(q) by {
                    if covered(areas, i as int, q.number as int) {
                        let k = choose|k: int|
                            0 <= k < i && #[trigger] areas[k].maps_page(q.number as int);
                        assert(areas[k].maps_page(q.number as int));
                    }
                    if area.maps_page(q.number as int) {
                        assert(areas[i as int].maps_page(q.number as int));
                    }
                }
            }
            i += 1;
        }
        Ok(())
    }

    /// Unmaps every page of every area in `pt` and gives the frames back to
    /// `allocator`, together with the frames of tables that are left empty.
    /// The promises to flush are given up. Every page outside the set is
    /// mapped as before.
    pub fn unmap<A: FrameAllocator>(&self, pt: &mut Mapper, allocator: &mut A)
        requires
            self.wf(),
            self.mappable(),
            old(pt).wf(),
            old(allocator).wf(),
            forall|k: int, n: int|
                0 <= k < self@.len() && #[trigger] self@[k].maps_page(n) ==> old(pt).maps_small(
                    Page { number: n as u64 },
                ),
        ensures
            final(pt).wf(),
            final(allocator).wf(),
            final(pt).spec_p4().recursive_frame() == old(pt).spec_p4().recursive_frame(),
            forall|q: Page|
                q.valid() && !covered(self@, self@.len() as int, q.number as int) ==> #[trigger] final(pt).lookup(q) == old(pt).lookup(q),
            forall|k: int, n: int|
                0 <= k < self@.len() && #[trigger] self@[k].maps_page(n) ==> final(pt).lookup(
                    Page { number: n as u64 },
                ).is_none(),
            // The promises to flush are given up: every page of the set is
            // stale.
            forall|q: Page| #[trigger]
                final(pt).stale().contains(q) == (old(pt).stale().contains(q) || covered(
                    self@,
                    self@.len() as int,
                    q.number as int,
                )),
    {
        let ghost areas = self@;
        let mut i: usize = 0;
        while i < self.areas.len()
            invariant
                i <= areas.len(),
                areas == self@,
                self.wf(),
                self.mappable(),
                pt.wf(),
                allocator.wf(),
                pt.spec_p4().recursive_frame() == old(pt).spec_p4().recursive_frame(),
                forall|q: Page| #[trigger]
                    pt.stale().contains(q) == (old(pt).stale().contains(q) || covered(
                        areas,
                        i as int,
                        q.number as int,
                    )),
                forall|q: Page|
                    q.valid() && !covered(areas, i as int, q.number as int) ==> #[trigger] pt.lookup(q)
                        == old(pt).lookup(q),
                forall|k: int, n: int|
                    0 <= k < i && #[trigger] areas[k].maps_page(n) ==> pt.lookup(
                        Page { number: n as u64 },
                    ).is_none(),
                forall|k: int, n: int|
                    i <= k < areas.len() && #[trigger] areas[k].maps_page(n) ==> pt.maps_small(
                        Page { number: n as u64 },
                    ),
            decreases areas.len() - i,
        {
            let area = self.areas[i];
            assert(area == areas[i as int]);
            assert(area.mappable());
            if area.start_addr < area.end_addr {
                let first = area.start_addr / 4096;
                let last = (area.end_addr - 1) / 4096;
                let mut n = first;
                while n <= last
                    invariant
                        i < areas.len(),
                        areas == self@,
                        area == areas[i as int],
                        area.start_addr < area.end_addr,
                        first == area.first_page(),
                        last == area.end_page() - 1,
                        first <= n <= last + 1,
                        self.wf(),
                        self.mappable(),
                        pt.wf(),
                        allocator.wf(),
                        pt.spec_p4().recursive_frame() == old(pt).spec_p4().recursive_frame(),
                        forall|q: Page| #[trigger]
                            pt.stale().contains(q) == (old(pt).stale().contains(q) || covered(
                                areas,
                                i as int,
                                q.number as int,
                            ) || (area.maps_page(q.number as int) && q.number < n)),
                        forall|q: Page|
                            q.valid() && !covered(areas, i as int, q.number as int) && !(
                            area.maps_page(q.number as int) && q.number < n) ==> #[trigger] pt.lookup(
                                q,
                            ) == old(pt).lookup(q),
                        forall|k: int, m: int|
                            0 <= k < i && #[trigger] areas[k].maps_page(m) ==> pt.lookup(
                                Page { number: m as u64 },
                            ).is_none(),
                        forall|m: int|
                            #[trigger] area.maps_page(m) && m < n ==> pt.lookup(
                                Page { number: m as u64 },
                            ).is_none(),
                        forall|m: int|
                            #[trigger] area.maps_page(m) && m >= n ==> pt.maps_small(
                                Page { number: m as u64 },
                            ),
                        forall|k: int, m: int|
                            i < k < areas.len() && #[trigger] areas[k].maps_page(m) ==> pt.maps_small(
                                Page { number: m as u64 },
                            ),
                    decreases last + 1 - n,
                {
                    let page = Page { number: n };
                    let ghost before = *pt;
                    proof {
                        assert(area.maps_page(n as int));
                        lemma_area_pages_are_mappable(area, n as int);
                    }
                    let flush = pt.unmap(page, allocator);
                    flush.ignore();
                    proof {
                        assert(pt.stale() == before.stale().insert(page));
                        assert forall|q: Page| #[trigger]
                            pt.stale().contains(q) == (old(pt).stale().contains(q) || covered(
                                areas,
                                i as int,
                                q.number as int,
                            ) || (area.maps_page(q.number as int) && q.number < n + 1)) by {
                            assert(before.stale().contains(q) == (old(pt).stale().contains(q) || covered(
                                areas,
                                i as int,
                                q.number as int,
                            ) || (area.maps_page(q.number as int) && q.number < n)));
                            assert((q == page) == (q.number == n));
                        }
                    }
                    proof {
                        assert forall|q: Page|
                            q.valid() && !covered(areas, i as int, q.number as int) && !(
                            area.maps_page(q.number as int) && q.number < n + 1) implies #[trigger] pt.lookup(
                            q,
                        ) == old(pt).lookup(q) by {
                            assert(q != page);
                            assert(before.lookup(q) == old(pt).lookup(q));
                        }
                        assert forall|k: int, m: int|
                            0 <= k < i && #[trigger] areas[k].maps_page(m) implies pt.lookup(
                            Page { number: m as u64 },
                        ).is_none() by {
                            lemma_area_pages_are_mappable(areas[k], m);
                            let q = Page { number: m as u64 };
                            if m == n {
                                assert(areas[k].overlaps(&areas[i as int]));
                            }
                            assert(pt.lookup(q) == before.lookup(q));
                        }
                        assert forall|m: int| #[trigger] area.maps_page(m) && m < n + 1 implies pt.lookup(
                            Page { number: m as u64 },
                        ).is_none() by {
                            lemma_area_pages_are_mappable(area, m);
                            let q = Page { number: m as u64 };
                            if m < n {
                                assert(pt.lookup(q) == before.lookup(q));
                            }
                        }
                        assert forall|m: int| #[trigger] area.maps_page(m) && m >= n + 1 implies pt.maps_small(
                            Page { number: m as u64 },
                        ) by {
                            lemma_area_pages_are_mappable(area, m);
                            let q = Page { number: m as u64 };
                            assert(pt.maps_small(q) == before.maps_small(q));
                        }
                        assert forall|k: int, m: int|
                            i < k < areas.len() && #[trigger] areas[k].maps_page(m) implies pt.maps_small(
                            Page { number: m as u64 },
                        ) by {
                            lemma_area_pages_are_mappable(areas[k], m);
                            let q = Page { number: m as u64 };
                            if m == n {
                                assert(areas[k].overlaps(&areas[i as int]));
                            }
                            assert(pt.maps_small(q) == before.maps_small(q));
                        }
                    }
                    n += 1;
                }
            }
            proof {
                assert forall|q: Page| #[trigger]
                    pt.stale().contains(q) == (old(pt).stale().contains(q) || covered(
                        areas,
                        i + 1,
                        q.number as int,
                    )) by {
                    if covered(areas, i as int, q.number as int) {
                        let k = choose|k: int| 0 <= k < i && #[trigger] areas[k].maps_page(q.number as int);
                        assert(areas[k].maps_page(q.number as int));
                    }
                    if area.maps_page(q.number as int) {
                        assert(areas[i as int].maps_page(q.number as int));
                    }
                    if covered(areas, i + 1, q.number as int) {
                        let k = choose|k: int| 0 <= k < i + 1 && #[trigger] areas[k].maps_page(q.number as int);
                        if k < i {
                            assert(covered(areas, i as int, q.number as int));
                        } else {
                            assert(area.maps_page(q.number as int));
                        }
                    }
                }
            }
            proof {
                assert forall|q: Page|
                    q.valid() && !covered(areas, i + 1, q.number as int) implies #[trigger] pt.lookup(
                    q,
                ) == old(pt).lookup(q) by {
                    if covered(areas, i as int, q.number as int) {
                        let k = choose|k: int|
                            0 <= k < i && #[trigger] areas[k].maps_page(q.number as int);
                        assert(areas[k].maps_page(q.number as int));
                    }
                    if area.maps_page(q.number as int) {
                        assert(areas[i as int].maps_page(q.number as int));
                    }
                }
            }
            i += 1;
        }
    }
}

/// One segment of a program image, as its program header gives it: where it
/// is to lie in memory and how long it is there, where it lies in the image
/// and how long it is there, and what may be done with it.
#[derive(Debug, Clone, Copy, PartialEq, Eq, Structural)]
pub struct ProgramSegment {
    pub virtual_addr: u64,
    pub mem_size: u64,
    pub offset: u64,
    pub file_size: u64,
    pub writable: bool,
    pub executable: bool,
}

impl ProgramSegment {
    /// The area that the segment takes in memory.
    pub open spec fn area(&self) -> MemoryArea {
        MemoryArea {
            start_addr: self.virtual_addr,
            end_addr: (self.virtual_addr + self.mem_size) as u64,
            phys_start_addr: None,
            flags: EntryFlags::for_segment(self.writable, self.executable),
            name: "",
        }
    }

    /// The end of the segment in memory is an address.
    pub open spec fn fits(&self) -> bool {
        self.virtual_addr + self.mem_size <= u64::MAX
    }

    /// Whether the end of the segment in memory is an address.
    pub fn is_fitting(&self) -> (result: bool)
        ensures
            result == self.fits(),
    {
        self.mem_size <= u64::MAX - self.virtual_addr
    }

    /// The area that the segment takes in memory.
    pub fn to_area(&self) -> (area: MemoryArea)
        requires
            self.fits(),
        ensures
            area == self.area(),
            area.flags.valid(),
    {
        MemoryArea::new(
            self.virtual_addr,
            self.virtual_addr + self.mem_size,
            EntryFlags::from_segment(self.writable, self.executable),
            "",
        )
    }
}

/// The areas of the first `n` segments.
pub open spec fn areas_of(segments: Seq<ProgramSegment>, n: int) -> Seq<MemoryArea> {
    Seq::new(n as nat, |i: int| segments[i].area())
}

impl MemorySet {
    /// The set of the areas that the segments of a program take in memory,
    /// in the order of the segments. The call fails where two segments
    /// touch a common page.
    pub fn from_segments(segments: &Vec<ProgramSegment>) -> (result: Result<MemorySet, MapError>)
        requires
            forall|i: int| 0 <= i < segments@.len() ==> (#[trigger] segments@[i]).fits(),
        ensures
            match result {
                Ok(set) => set.wf() && set@ == areas_of(segments@, segments@.len() as int),
                Err(e) => e == MapError::RangeInUse && !pairwise_disjoint(
                    areas_of(segments@, segments@.len() as int),
                ),
            },
            result is Ok <==> pairwise_disjoint(areas_of(segments@, segments@.len() as int)),
    {
        let mut set = MemorySet::new();
        let mut i: usize = 0;
        while i < segments.len()
            invariant
                i <= segments@.len(),
                set.wf(),
                set@ == areas_of(segments@, i as int),
                forall|k: int| 0 <= k < segments@.len() ==> (#[trigger] segments@[k]).fits(),
            decreases segments@.len() - i,
        {
            let area = segments[i].to_area();
            match set.push(area) {
                Ok(()) => {
                    assert(set@ =~= areas_of(segments@, i + 1));
                },
                Err(e) => {
                    proof {
                        let all = areas_of(segments@, segments@.len() as int);
                        let some = areas_of(segments@, i as int);
                        let k = choose|k: int| 0 <= k < some.len() && area.overlaps(&#[trigger] some[k]);
                        assert(all[k] == some[k]);
                        assert(all[i as int] == area);
                        assert(all[i as int].overlaps(&all[k]));
                    }
                    return Err(e);
                },
            }
            i += 1;
        }
        Ok(set)
    }
}

} // verus!
