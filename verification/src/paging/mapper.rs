//! The mapper: the operations on a four-level hierarchy of page tables.

use vstd::prelude::*;
use crate::memory::address::{PAddr, VirtualAddress};
use crate::memory::frame::{Frame, FrameAllocator, MAX_FRAME_NUMBER};
use crate::paging::entry::{EntryFlags, Mapping};
use crate::paging::table::{gave_back_all, lemma_gave_back_one_more, new_mapping, same_path, MapError, Table, RECURSIVE_INDEX};
use crate::paging::{is_canonical, lemma_indices_name_the_page, ActivePageTable, Page};

verus! {

/// The page lies outside the slot of the recursive mapping, whose addresses
/// show the tables themselves and are no one's to map.
pub open spec fn mappable(page: Page) -> bool {
    page.valid() && page.index(4) != RECURSIVE_INDEX
}

/// Edits and reads one hierarchy of page tables, given by its top-level
/// table.
pub struct Mapper {
    p4: Table,
    stale: Ghost<Set<Page>>,
}

impl Mapper {
    /// The top-level table.
    pub closed spec fn spec_p4(&self) -> Table {
        self.p4
    }

    /// The hierarchy is well formed and starts with a top-level table.
    pub open spec fn wf(&self) -> bool {
        self.spec_p4().wf() && self.spec_p4().level() == 4
    }

    /// What the hierarchy says of `page`: the frame that it is mapped to and
    /// the flags of the mapping, or `None` where it is not mapped.
    pub open spec fn lookup(&self, page: Page) -> Option<Mapping> {
        self.spec_p4().lookup(page)
    }

    /// The frame that `page` translates to.
    pub open spec fn translated(&self, page: Page) -> Option<Frame> {
        match self.lookup(page) {
            Some(m) => Some(m.frame),
            None => None,
        }
    }

    /// The page is mapped by an entry of a leaf table, not as part of a
    /// huge block.
    pub open spec fn maps_small(&self, page: Page) -> bool {
        self.spec_p4().maps_small(page)
    }

    /// The tables that a walk for `page` passes through are all there.
    pub open spec fn has_tables_for(&self, page: Page) -> bool {
        self.spec_p4().has_tables_for(page)
    }

    /// The number of live entries of the leaf table in which the walk for
    /// `page` ends; 0 where the walk does not come that far.
    pub open spec fn leaf_count(&self, page: Page) -> int {
        self.spec_p4().leaf_count(page)
    }

    /// The numbers of the frames of the tables that unmapping `page` lets
    /// go, the lowest table first: those that are left empty.
    pub open spec fn freed_tables(&self, page: Page) -> Seq<u64> {
        self.spec_p4().freed_tables(page)
    }

    /// The number of tables that are missing on the walk for `page`: as
    /// many frames are needed to map it.
    pub open spec fn missing_tables(&self, page: Page) -> nat {
        self.spec_p4().missing_tables(page)
    }

    /// The pages whose mapping was changed and that were not flushed from
    /// the translation cache since.
    pub closed spec fn stale(&self) -> Set<Page> {
        self.stale@
    }

    /// A mapper over the hierarchy below `p4`.
    pub fn new(p4: Table) -> (mapper: Mapper)
        requires
            p4.wf(),
            p4.level() == 4,
        ensures
            mapper.wf(),
            mapper.spec_p4() == p4,
            mapper.stale() == Set::<Page>::empty(),
    {
        Mapper { p4, stale: Ghost(Set::empty()) }
    }

    /// The top-level table.
    pub fn p4(&self) -> (table: &Table)
        ensures
            *table == self.spec_p4(),
    {
        &self.p4
    }

    /// Puts `table` in the place of the top-level table and hands back the
    /// one that was there. The record of stale pages stays.
    pub fn replace_p4(&mut self, table: Table) -> (previous: Table)
        ensures
            previous == old(self).spec_p4(),
            final(self).spec_p4() == table,
            final(self).stale() == old(self).stale(),
    {
        let mut table = table;
        core::mem::swap(&mut self.p4, &mut table);
        table
    }

    /// Takes over the entry at `index` of the top-level table `source`,
    /// with a copy of all tables below it. What the entry held before is
    /// dropped. Afterwards the pages of that entry are mapped as `source`
    /// maps them, and every other page as before.
    pub fn share_entry(&mut self, index: usize, source: &Table)
        requires
            old(self).wf(),
            source.wf(),
            source.level() == 4,
            Table::is_shareable_index(index as int),
        ensures
            final(self).wf(),
            final(self).stale() == old(self).stale(),
            final(self).spec_p4().recursive_frame() == old(self).spec_p4().recursive_frame(),
            forall|q: Page| #[trigger]
                final(self).lookup(q) == if q.index(4) == index {
                    source.lookup(q)
                } else {
                    old(self).lookup(q)
                },
            forall|q: Page| #[trigger]
                final(self).maps_small(q) == if q.index(4) == index {
                    source.maps_small(q)
                } else {
                    old(self).maps_small(q)
                },
    {
        self.p4.share_entry(index, source);
    }

    /// Records that every page was flushed from the translation cache.
    pub fn note_flush_all(&mut self)
        ensures
            final(self).spec_p4() == old(self).spec_p4(),
            final(self).stale() == Set::<Page>::empty(),
    {
        self.stale = Ghost(Set::empty());
    }

    /// Records that `page` was flushed from the translation cache.
    pub fn note_flush(&mut self, page: Page)
        ensures
            final(self).spec_p4() == old(self).spec_p4(),
            final(self).stale() == old(self).stale().remove(page),
    {
        self.stale = Ghost(self.stale@.remove(page));
    }

    /// The physical address that `virtual_address` is mapped to, or `None`
    /// where its page is not mapped.
    pub fn translate(&self, virtual_address: VirtualAddress) -> (address: Option<PAddr>)
        requires
            self.wf(),
            is_canonical(virtual_address),
        ensures
            address == match self.lookup(Page { number: virtual_address / 4096 }) {
                Some(m) => if m.frame.valid() {
                    Some(PAddr((m.frame.number * 4096 + virtual_address % 4096) as u64))
                } else {
                    None
                },
                None => None,
            },
            self.maps_small(Page { number: virtual_address / 4096 }) ==> address.is_some(),
    {
        let offset = virtual_address % 4096;
        match self.translate_page(Page::containing_address(virtual_address)) {
            Some(frame) => {
                if frame.number <= MAX_FRAME_NUMBER {
                    Some(PAddr(frame.start_address().get() + offset))
                } else {
                    None
                }
            },
            None => None,
        }
    }

    /// The frame that `page` is mapped to, or `None` where it is not
    /// mapped.
    ///
    /// The walk goes from the top-level table down, following entries that
    /// are present and not huge. A huge entry at level 3 or 2 maps a block
    /// of 1 GiB or 2 MiB; the frame is then the one that lies as far into
    /// the block as the page's lower indices say.
    pub fn translate_page(&self, page: Page) -> (frame: Option<Frame>)
        requires
            self.wf(),
        ensures
            frame == self.translated(page),
            self.maps_small(page) ==> frame.is_some() && frame.unwrap().valid(),
    {
        match self.p4.find(page) {
            Some(m) => Some(m.frame),
            None => None,
        }
    }

    /// The flags with which `page` is mapped, or `None` where it is not
    /// mapped.
    pub fn flags_of(&self, page: Page) -> (flags: Option<EntryFlags>)
        requires
            self.wf(),
        ensures
            flags == match self.lookup(page) {
                Some(m) => Some(m.flags),
                None => None,
            },
    {
        match self.p4.find(page) {
            Some(m) => Some(m.flags),
            None => None,
        }
    }

    /// Maps `page` to `frame` with `flags` and the present flag.
    ///
    /// Tables that are missing on the way are created from frames of
    /// `allocator`. On success the page is mapped as asked, every other page
    /// is mapped as before, and the promise to flush `page` is handed back.
    /// The call fails where a table is missing and the allocator has no
    /// frame for it; every page is then mapped as before.
    pub fn map_to<A: FrameAllocator>(
        &mut self,
        page: Page,
        frame: Frame,
        flags: EntryFlags,
        allocator: &mut A,
    ) -> (result: Result<MapperFlush, MapError>)
        requires
            old(self).wf(),
            mappable(page),
            old(self).lookup(page).is_none(),
            frame.valid(),
            flags.valid(),
            old(allocator).wf(),
        ensures
            final(self).wf(),
            final(self).spec_p4().recursive_frame() == old(self).spec_p4().recursive_frame(),
            // The page is mapped where the allocator promises the frames that
            // are needed, and no more frames are taken.
            old(allocator).promises(old(self).missing_tables(page)) ==> result is Ok,
            forall|n: nat|
                old(allocator).promises(n + old(self).missing_tables(page)) ==> #[trigger] final(allocator).promises(n),
            forall|q: Page| old(self).has_tables_for(q) ==> #[trigger] final(self).has_tables_for(q),
            forall|q: Page|
                q.valid() && q != page ==> #[trigger] final(self).maps_small(q) == old(self).maps_small(q),
            final(allocator).wf(),
            forall|g: int| #[trigger] final(allocator).available(g) ==> old(allocator).available(g),
            old(allocator).exclusive() ==> final(allocator).exclusive(),
            match result {
                Ok(flush) => {
                    &&& flush.page() == page
                    &&& final(self).lookup(page) == Some(new_mapping(frame, flags))
                    &&& final(self).maps_small(page)
                    &&& forall|q: Page|
                        q.valid() && q != page ==> #[trigger] final(self).lookup(q) == old(self).lookup(q)
                    &&& final(self).stale() == old(self).stale().insert(page)
                },
                Err(e) => {
                    &&& e == MapError::OutOfMemory
                    &&& forall|q: Page| #[trigger] final(self).lookup(q) == old(self).lookup(q)
                    &&& final(self).stale() == old(self).stale()
                },
            },
            old(self).has_tables_for(page) ==> result is Ok,
    {
        let ghost before = self.p4;
        match self.p4.map_at(page, frame, flags, allocator) {
            Ok(()) => {
                proof {
                    lemma_other_pages_go_elsewhere(page);
                    self.p4.lemma_mapped_small(page);
                    lemma_other_pages_keep_small(before, self.p4, page);
                }
                self.stale = Ghost(self.stale@.insert(page));
                Ok(MapperFlush::new(page))
            },
            Err(e) => {
                proof {
                    lemma_other_pages_keep_small(before, self.p4, page);
                }
                Err(e)
            },
        }
    }

    /// Maps `page` to a frame that `allocator` hands out for it.
    ///
    /// The call fails, and nothing is mapped differently, where the
    /// allocator has no frame for the page or for a table that is missing.
    /// A frame that was taken for the page stays taken in that case.
    pub fn map<A: FrameAllocator>(&mut self, page: Page, flags: EntryFlags, allocator: &mut A) -> (result:
        Result<MapperFlush, MapError>)
        requires
            old(self).wf(),
            mappable(page),
            old(self).lookup(page).is_none(),
            flags.valid(),
            old(allocator).wf(),
        ensures
            final(self).wf(),
            final(self).spec_p4().recursive_frame() == old(self).spec_p4().recursive_frame(),
            // The page is mapped where the allocator promises the frames that
            // are needed, and no more frames are taken.
            old(allocator).promises(1 + old(self).missing_tables(page)) ==> result is Ok,
            forall|n: nat|
                old(allocator).promises(n + 1 + old(self).missing_tables(page)) ==> #[trigger] final(allocator).promises(n),
            forall|q: Page| old(self).has_tables_for(q) ==> #[trigger] final(self).has_tables_for(q),
            forall|q: Page|
                q.valid() && q != page ==> #[trigger] final(self).maps_small(q) == old(self).maps_small(q),
            final(allocator).wf(),
            forall|g: int| #[trigger] final(allocator).available(g) ==> old(allocator).available(g),
            old(allocator).exclusive() ==> final(allocator).exclusive(),
            match result {
                Ok(flush) => {
                    &&& flush.page() == page
                    &&& final(self).lookup(page) matches Some(m) && m.flags == new_mapping(
                        m.frame,
                        flags,
                    ).flags && old(allocator).available(m.frame.number as int) && m.frame.valid() && (old(allocator).exclusive() ==> !final(allocator).available(m.frame.number as int))
                    &&& final(self).maps_small(page)
                    &&& forall|q: Page|
                        q.valid() && q != page ==> #[trigger] final(self).lookup(q) == old(self).lookup(q)
                    &&& final(self).stale() == old(self).stale().insert(page)
                },
                Err(e) => {
                    &&& e == MapError::OutOfMemory
                    &&& forall|q: Page| #[trigger] final(self).lookup(q) == old(self).lookup(q)
                    &&& final(self).stale() == old(self).stale()
                },
            },
    {
        proof {
            let missing = self.missing_tables(page);
            if old(allocator).promises(1 + missing) {
                old(allocator).lemma_promises(1 + missing, 1);
            }
        }
        let frame = match allocator.allocate_frames(1) {
            Some(frame) => frame,
            None => {
                proof {
                    let missing = self.missing_tables(page);
                    assert forall|n: nat| old(allocator).promises(n + 1 + missing) implies #[trigger] allocator.promises(
                        n,
                    ) by {
                        old(allocator).lemma_promises(n + 1 + missing, n + 1);
                    }
                }
                return Err(MapError::OutOfMemory);
            },
        };
        assert(old(allocator).available(frame.number as int));
        let ghost taken = *allocator;
        let ghost number = frame.number as int;
        assert(old(allocator).exclusive() ==> !taken.available(number));
        proof {
            let missing = self.missing_tables(page);
            if old(allocator).promises(1 + missing) {
                assert(taken.promises(missing));
            }
            assert forall|n: nat| old(allocator).promises(n + 1 + missing) implies #[trigger] taken.promises(
                n + missing,
            ) by {}
        }
        self.map_to(page, frame, flags, allocator)
    }

    /// Gives the mapping of `page` new flags, with the present flag, and
    /// leaves the frame as it is.
    pub fn remap(&mut self, page: Page, flags: EntryFlags) -> (flush: MapperFlush)
        requires
            old(self).wf(),
            page.valid(),
            old(self).maps_small(page),
            flags.valid(),
        ensures
            final(self).wf(),
            final(self).spec_p4().recursive_frame() == old(self).spec_p4().recursive_frame(),
            forall|q: Page|
                q.valid() && q != page ==> #[trigger] final(self).maps_small(q) == old(self).maps_small(q),
            flush.page() == page,
            old(self).lookup(page).is_some(),
            final(self).lookup(page) == Some(
                new_mapping(old(self).lookup(page).unwrap().frame, flags),
            ),
            final(self).maps_small(page),
            forall|q: Page|
                q.valid() && q != page ==> #[trigger] final(self).lookup(q) == old(self).lookup(q),
            final(self).stale() == old(self).stale().insert(page),
    {
        let ghost before = self.p4;
        self.p4.remap_at(page, flags);
        proof {
            lemma_other_pages_keep_small(before, self.p4, page);
            lemma_other_pages_go_elsewhere(page);
        }
        self.stale = Ghost(self.stale@.insert(page));
        MapperFlush::new(page)
    }

    /// The page at which the identity window shows `frame`: the page whose
    /// number is that of the frame.
    pub open spec fn identity_page(frame: Frame) -> Page {
        Page { number: frame.number }
    }

    /// Maps the page whose number is that of `frame` to `frame`.
    pub fn identity_map<A: FrameAllocator>(&mut self, frame: Frame, flags: EntryFlags, allocator: &mut A) -> (result:
        Result<MapperFlush, MapError>)
        requires
            old(self).wf(),
            frame.valid(),
            mappable(Self::identity_page(frame)),
            old(self).lookup(Self::identity_page(frame)).is_none(),
            flags.valid(),
            old(allocator).wf(),
        ensures
            final(self).wf(),
            final(self).spec_p4().recursive_frame() == old(self).spec_p4().recursive_frame(),
            // The page is mapped where the allocator promises the frames that
            // are needed, and no more frames are taken.
            old(allocator).promises(old(self).missing_tables(Self::identity_page(frame))) ==> result is Ok,
            forall|n: nat|
                old(allocator).promises(n + old(self).missing_tables(Self::identity_page(frame))) ==> #[trigger] final(allocator).promises(n),
            forall|q: Page| old(self).has_tables_for(q) ==> #[trigger] final(self).has_tables_for(q),
            forall|q: Page|
                q.valid() && q != Self::identity_page(frame) ==> #[trigger] final(self).maps_small(q) == old(self).maps_small(q),
            final(allocator).wf(),
            forall|g: int| #[trigger] final(allocator).available(g) ==> old(allocator).available(g),
            old(allocator).exclusive() ==> final(allocator).exclusive(),
            match result {
                Ok(flush) => {
                    &&& flush.page() == Self::identity_page(frame)
                    &&& final(self).lookup(Self::identity_page(frame)) == Some(
                        new_mapping(frame, flags),
                    )
                    &&& forall|q: Page|
                        q.valid() && q != Self::identity_page(frame) ==> #[trigger] final(self).lookup(q) == old(self).lookup(q)
                    &&& final(self).stale() == old(self).stale().insert(Self::identity_page(frame))
                },
                Err(e) => {
                    &&& e == MapError::OutOfMemory
                    &&& forall|q: Page| #[trigger] final(self).lookup(q) == old(self).lookup(q)
                    &&& final(self).stale() == old(self).stale()
                },
            },
            old(self).has_tables_for(Self::identity_page(frame)) ==> result is Ok,
    {
        let page = Page::containing_address(frame.start_address().to_identity_virtual());
        self.map_to(page, frame, flags, allocator)
    }

    /// Maps `page` to `frame` as `map_to` does, for a hierarchy that is not
    /// loaded: no promise to flush is handed back, and the page is not
    /// recorded as stale.
    pub fn map_to2<A: FrameAllocator>(
        &mut self,
        page: Page,
        frame: Frame,
        flags: EntryFlags,
        allocator: &mut A,
    ) -> (result: Result<(), MapError>)
        requires
            old(self).wf(),
            mappable(page),
            old(self).lookup(page).is_none(),
            frame.valid(),
            flags.valid(),
            old(allocator).wf(),
        ensures
            final(self).wf(),
            final(self).spec_p4().recursive_frame() == old(self).spec_p4().recursive_frame(),
            // The page is mapped where the allocator promises the frames that
            // are needed, and no more frames are taken.
            old(allocator).promises(old(self).missing_tables(page)) ==> result is Ok,
            forall|n: nat|
                old(allocator).promises(n + old(self).missing_tables(page)) ==> #[trigger] final(allocator).promises(n),
            forall|q: Page| old(self).has_tables_for(q) ==> #[trigger] final(self).has_tables_for(q),
            forall|q: Page|
                q.valid() && q != page ==> #[trigger] final(self).maps_small(q) == old(self).maps_small(q),
            final(allocator).wf(),
            forall|g: int| #[trigger] final(allocator).available(g) ==> old(allocator).available(g),
            old(allocator).exclusive() ==> final(allocator).exclusive(),
            final(self).stale() == old(self).stale(),
            match result {
                Ok(()) => {
                    &&& final(self).lookup(page) == Some(new_mapping(frame, flags))
                    &&& forall|q: Page|
                        q.valid() && q != page ==> #[trigger] final(self).lookup(q) == old(self).lookup(q)
                },
                Err(e) => {
                    &&& e == MapError::OutOfMemory
                    &&& forall|q: Page| #[trigger] final(self).lookup(q) == old(self).lookup(q)
                },
            },
            old(self).has_tables_for(page) ==> result is Ok,
    {
        let ghost stale = self.stale@;
        match self.map_to(page, frame, flags, allocator) {
            Ok(flush) => {
                flush.ignore();
                let ghost mapped = *self;
                self.stale = Ghost(stale);
                proof {
                    assert forall|q: Page| q.valid() && q != page implies #[trigger] self.lookup(q)
                        == old(self).lookup(q) by {
                        assert(mapped.lookup(q) == old(self).lookup(q));
                    }
                    assert forall|q: Page|
                        q.valid() && q != page implies #[trigger] self.maps_small(q) == old(self).maps_small(q) by {
                        assert(mapped.maps_small(q) == old(self).maps_small(q));
                    }
                    assert forall|q: Page| old(self).has_tables_for(q) implies #[trigger] self.has_tables_for(
                        q,
                    ) by {
                        assert(mapped.has_tables_for(q));
                    }
                }
                Ok(())
            },
            Err(e) => Err(e),
        }
    }

    /// Maps the page whose number is that of `frame` to `frame`, as
    /// `map_to2` does.
    pub fn identity_map2<A: FrameAllocator>(&mut self, frame: Frame, flags: EntryFlags, allocator: &mut A) -> (result:
        Result<(), MapError>)
        requires
            old(self).wf(),
            frame.valid(),
            mappable(Self::identity_page(frame)),
            old(self).lookup(Self::identity_page(frame)).is_none(),
            flags.valid(),
            old(allocator).wf(),
        ensures
            final(self).wf(),
            final(self).spec_p4().recursive_frame() == old(self).spec_p4().recursive_frame(),
            // The page is mapped where the allocator promises the frames that
            // are needed, and no more frames are taken.
            old(allocator).promises(old(self).missing_tables(Self::identity_page(frame))) ==> result is Ok,
            forall|n: nat|
                old(allocator).promises(n + old(self).missing_tables(Self::identity_page(frame))) ==> #[trigger] final(allocator).promises(n),
            forall|q: Page| old(self).has_tables_for(q) ==> #[trigger] final(self).has_tables_for(q),
            forall|q: Page|
                q.valid() && q != Self::identity_page(frame) ==> #[trigger] final(self).maps_small(q) == old(self).maps_small(q),
            final(allocator).wf(),
            forall|g: int| #[trigger] final(allocator).available(g) ==> old(allocator).available(g),
            old(allocator).exclusive() ==> final(allocator).exclusive(),
            final(self).stale() == old(self).stale(),
            match result {
                Ok(()) => {
                    &&& final(self).lookup(Self::identity_page(frame)) == Some(
                        new_mapping(frame, flags),
                    )
                    &&& forall|q: Page|
                        q.valid() && q != Self::identity_page(frame) ==> #[trigger] final(self).lookup(q) == old(self).lookup(q)
                },
                Err(e) => {
                    &&& e == MapError::OutOfMemory
                    &&& forall|q: Page| #[trigger] final(self).lookup(q) == old(self).lookup(q)
                },
            },
            old(self).has_tables_for(Self::identity_page(frame)) ==> result is Ok,
    {
        let page = Page::containing_address(frame.start_address().to_identity_virtual());
        self.map_to2(page, frame, flags, allocator)
    }

    /// Takes the mapping of `page` away and hands back the frame it was
    /// mapped to. Tables that are left empty are let go and their frames
    /// given back to `allocator`, unless `keep_parents` is set.
    fn unmap_inner<A: FrameAllocator>(&mut self, page: &Page, keep_parents: bool, allocator: &mut A) -> (frame:
        Frame)
        requires
            old(self).wf(),
            page.valid(),
            old(self).maps_small(*page),
            old(allocator).wf(),
        ensures
            final(self).wf(),
            final(self).spec_p4().recursive_frame() == old(self).spec_p4().recursive_frame(),
            !keep_parents ==> gave_back_all(*old(allocator), *final(allocator), old(self).freed_tables(*page)),
            keep_parents ==> final(self).has_tables_for(*page),
            !keep_parents ==> final(self).has_tables_for(*page) == (old(self).leaf_count(*page) > 1),
            old(self).leaf_count(*page) >= 1,
            forall|q: Page|
                q.valid() && q != *page ==> #[trigger] final(self).maps_small(q) == old(self).maps_small(q),
            final(allocator).wf(),
            old(self).lookup(*page) matches Some(m) && m.frame == frame,
            frame.valid(),
            final(self).lookup(*page).is_none(),
            forall|q: Page|
                q.valid() && q != *page ==> #[trigger] final(self).lookup(q) == old(self).lookup(q),
            final(self).stale() == old(self).stale(),
            keep_parents ==> *final(allocator) == *old(allocator),
            forall|g: int| #[trigger]
                final(allocator).available(g) ==> old(allocator).available(g) || old(self).spec_p4().table_frame_on_path(*page, g),
    {
        let ghost before = self.p4;
        let frame = self.p4.unmap_at(*page, keep_parents, allocator);
        proof {
            lemma_other_pages_keep_small(before, self.p4, *page);
            lemma_other_pages_go_elsewhere(*page);
        }
        frame
    }

    /// Takes the mapping of `page` away and gives the frame that it was
    /// mapped to, and the frames of tables that are left empty, back to
    /// `allocator`.
    pub fn unmap<A: FrameAllocator>(&mut self, page: Page, allocator: &mut A) -> (flush: MapperFlush)
        requires
            old(self).wf(),
            page.valid(),
            old(self).maps_small(page),
            old(allocator).wf(),
        ensures
            final(self).wf(),
            final(self).spec_p4().recursive_frame() == old(self).spec_p4().recursive_frame(),
            // The frames of the tables that are let go are given back, the
            // lowest table first, and then the frame of the page.
            gave_back_all(
                *old(allocator),
                *final(allocator),
                old(self).freed_tables(page).push(old(self).lookup(page).unwrap().frame.number),
            ),
            final(self).has_tables_for(page) == (old(self).leaf_count(page) > 1),
            old(self).leaf_count(page) >= 1,
            forall|q: Page|
                q.valid() && q != page ==> #[trigger] final(self).maps_small(q) == old(self).maps_small(q),
            final(allocator).wf(),
            flush.page() == page,
            final(self).lookup(page).is_none(),
            forall|q: Page|
                q.valid() && q != page ==> #[trigger] final(self).lookup(q) == old(self).lookup(q),
            final(self).stale() == old(self).stale().insert(page),
            forall|g: int| #[trigger]
                final(allocator).available(g) ==> old(allocator).available(g) || old(self).spec_p4().table_frame_on_path(page, g) || old(self).lookup(page).unwrap().frame.number
                    == g,
    {
        let frame = self.unmap_inner(&page, false, allocator);
        let ghost middle = *allocator;
        let ghost number = frame.number;
        allocator.deallocate_frames(frame, 1);
        proof {
            lemma_gave_back_one_more(*old(allocator), middle, *allocator, old(self).freed_tables(page), number);
        }
        let ghost unmapped = *self;
        self.stale = Ghost(self.stale@.insert(page));
        proof {
            assert forall|q: Page| q.valid() && q != page implies #[trigger] self.lookup(q) == old(self).lookup(q) by {
                assert(unmapped.lookup(q) == old(self).lookup(q));
            }
            assert forall|q: Page| q.valid() && q != page implies #[trigger] self.maps_small(q) == old(self).maps_small(q) by {
                assert(unmapped.maps_small(q) == old(self).maps_small(q));
            }
        }
        MapperFlush::new(page)
    }

    /// Takes the mapping of `page` away and hands the frame that it was
    /// mapped to back to the caller.
    pub fn unmap_return<A: FrameAllocator>(&mut self, page: Page, keep_parents: bool, allocator: &mut A) -> (result:
        (MapperFlush, Frame))
        requires
            old(self).wf(),
            page.valid(),
            old(self).maps_small(page),
            old(allocator).wf(),
        ensures
            final(self).wf(),
            final(self).spec_p4().recursive_frame() == old(self).spec_p4().recursive_frame(),
            // Without `keep_parents` the frames of the tables that are let go
            // are given back, the lowest table first, and no other frame is.
            !keep_parents ==> gave_back_all(*old(allocator), *final(allocator), old(self).freed_tables(page)),
            keep_parents ==> final(self).has_tables_for(page),
            !keep_parents ==> final(self).has_tables_for(page) == (old(self).leaf_count(page) > 1),
            old(self).leaf_count(page) >= 1,
            forall|q: Page|
                q.valid() && q != page ==> #[trigger] final(self).maps_small(q) == old(self).maps_small(q),
            final(allocator).wf(),
            result.0.page() == page,
            old(self).lookup(page) matches Some(m) && m.frame == result.1,
            result.1.valid(),
            final(self).lookup(page).is_none(),
            forall|q: Page|
                q.valid() && q != page ==> #[trigger] final(self).lookup(q) == old(self).lookup(q),
            final(self).stale() == old(self).stale().insert(page),
            keep_parents ==> *final(allocator) == *old(allocator),
            forall|g: int| #[trigger]
                final(allocator).available(g) ==> old(allocator).available(g) || old(self).spec_p4().table_frame_on_path(page, g),
    {
        let frame = self.unmap_inner(&page, keep_parents, allocator);
        let ghost unmapped = *self;
        self.stale = Ghost(self.stale@.insert(page));
        proof {
            assert forall|q: Page| q.valid() && q != page implies #[trigger] self.lookup(q) == old(self).lookup(q) by {
                assert(unmapped.lookup(q) == old(self).lookup(q));
            }
            assert forall|q: Page| q.valid() && q != page implies #[trigger] self.maps_small(q) == old(self).maps_small(q) by {
                assert(unmapped.maps_small(q) == old(self).maps_small(q));
            }
        }
        (MapperFlush::new(page), frame)
    }
}

/// Mapping a page and translating it gives the frame that it was mapped
/// to; after the page was unmapped it translates to nothing; and every
/// other page translates as before the two.
///
/// `mapped` stands for the mapper after `map_to` has mapped `page` to
/// `frame` in `before`, and `unmapped` for the mapper after `unmap` has
/// unmapped `page` in `mapped`: the hypotheses are what the two ensure.
pub proof fn lemma_map_translate_unmap(
    before: Mapper,
    mapped: Mapper,
    unmapped: Mapper,
    page: Page,
    frame: Frame,
    flags: EntryFlags,
)
    requires
        mapped.lookup(page) == Some(new_mapping(frame, flags)),
        forall|q: Page| q.valid() && q != page ==> #[trigger] mapped.lookup(q) == before.lookup(q),
        unmapped.lookup(page).is_none(),
        forall|q: Page| q.valid() && q != page ==> #[trigger] unmapped.lookup(q) == mapped.lookup(q),
    ensures
        mapped.translated(page) == Some(frame),
        unmapped.translated(page).is_none(),
        forall|q: Page|
            q.valid() && q != page ==> #[trigger] unmapped.translated(q) == before.translated(q),
{
    assert forall|q: Page| q.valid() && q != page implies #[trigger] unmapped.translated(q)
        == before.translated(q) by {
        assert(unmapped.lookup(q) == mapped.lookup(q));
        assert(mapped.lookup(q) == before.lookup(q));
    }
}

/// A change of a mapping whose promise is kept by a flush of the page
/// leaves no page stale that was not stale before, and not the page itself:
/// what `map_to`, `remap` and `unmap` add to the record of stale pages,
/// `flush` takes away.
pub proof fn lemma_flush_keeps_the_promise(stale: Set<Page>, page: Page)
    ensures
        stale.insert(page).remove(page) == stale.remove(page),
        !stale.insert(page).remove(page).contains(page),
        stale.insert(page).remove(page).subset_of(stale),
        Set::<Page>::empty().insert(page).remove(page) == Set::<Page>::empty(),
{
    assert(stale.insert(page).remove(page) =~= stale.remove(page));
    assert(Set::<Page>::empty().insert(page).remove(page) =~= Set::<Page>::empty());
}

/// Another valid page goes another way through the tables: valid pages with
/// the same index at every level are the same page.
pub proof fn lemma_other_pages_go_elsewhere(page: Page)
    requires
        page.valid(),
    ensures
        same_path(page, page, 4),
        forall|q: Page| q.valid() && q != page ==> !#[trigger] same_path(q, page, 4),
{
    assert forall|q: Page| q.valid() && q != page implies !#[trigger] same_path(q, page, 4) by {
        if same_path(q, page, 4) {
            assert(q.index(4) == page.index(4));
            assert(q.index(3) == page.index(3));
            assert(q.index(2) == page.index(2));
            assert(q.index(1) == page.index(1));
            lemma_indices_name_the_page(q, page);
        }
    }
}

/// Where a change leaves every page with another path as it was, it leaves
/// every other valid page as it was: valid pages with the same path are the
/// same page.
pub proof fn lemma_other_pages_keep_small(before: Table, after: Table, page: Page)
    requires
        page.valid(),
        forall|q: Page|
            !same_path(q, page, 4) ==> #[trigger] after.maps_small(q) == before.maps_small(q),
    ensures
        forall|q: Page|
            q.valid() && q != page ==> #[trigger] after.maps_small(q) == before.maps_small(q),
{
    lemma_other_pages_go_elsewhere(page);
}

/// The promise to flush one page from the translation cache.
///
/// Every operation that changes the mapping of a page hands back one such
/// promise. It is kept by flushing the page in the loaded table, by handing
/// it to a `MapperFlushAll`, or given up with `ignore`.
#[must_use]
pub struct MapperFlush(Page);

impl MapperFlush {
    /// The page that is to be flushed.
    pub closed spec fn page(&self) -> Page {
        self.0
    }

    /// Create a new page flush promise.
    pub fn new(page: Page) -> (flush: MapperFlush)
        ensures
            flush.page() == page,
    {
        MapperFlush(page)
    }

    /// Flush this page in the active table.
    pub fn flush(self, table: &mut ActivePageTable)
        requires
            self.page().valid(),
        ensures
            final(table).mapper.spec_p4() == old(table).mapper.spec_p4(),
            final(table).mapper.stale() == old(table).mapper.stale().remove(self.page()),
            final(table).spec_p4_frame() == old(table).spec_p4_frame(),
            final(table).pending() == old(table).pending().push(
                crate::paging::HardwareOp::FlushPage((self.page().number * 4096) as u64),
            ),
    {
        table.flush(self.0);
    }

    /// Ignore the flush. This leaves the page stale where its table is the
    /// loaded one; it is in order for a table that is not loaded.
    pub fn ignore(self) {
    }
}

/// The promise to flush the whole translation cache, which can take over
/// the promises for single pages.
#[must_use]
pub struct MapperFlushAll(bool);

impl MapperFlushAll {
    /// Whether a promise for a page was taken over.
    pub closed spec fn needed(&self) -> bool {
        self.0
    }

    /// Create a new promise to flush all mappings.
    pub fn new() -> (flush: MapperFlushAll)
        ensures
            !flush.needed(),
    {
        MapperFlushAll(false)
    }

    /// Consume a single page flush.
    pub fn consume(&mut self, flush: MapperFlush)
        ensures
            final(self).needed(),
    {
        self.0 = true;
        flush.ignore();
    }

    /// Flush the active page table, where a promise for a page was taken
    /// over; else nothing is done.
    pub fn flush(self, table: &mut ActivePageTable)
        ensures
            final(table).mapper.spec_p4() == old(table).mapper.spec_p4(),
            final(table).spec_p4_frame() == old(table).spec_p4_frame(),
            self.needed() ==> final(table).mapper.stale() == Set::<Page>::empty() && final(table).pending() == old(table).pending().push(crate::paging::HardwareOp::FlushAll),
            !self.needed() ==> final(table).mapper.stale() == old(table).mapper.stale() && final(table).pending() == old(table).pending(),
    {
        if self.0 {
            table.flush_all();
        }
    }

    /// Ignore the flush.
    pub fn ignore(self) {
    }
}

} // verus!
