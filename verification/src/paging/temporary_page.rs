//! A page that is kept free so that any frame can be mapped for a moment.

use vstd::prelude::*;
use crate::memory::address::VirtualAddress;
use crate::memory::frame::{Frame, FrameAllocator, MAX_FRAME_NUMBER};
use crate::paging::entry::{EntryFlags, WRITABLE};
use crate::paging::mapper::mappable;
use crate::paging::table::{lemma_table_flags, new_mapping, MapError};
use crate::paging::{ActivePageTable, HardwareOp, Page};

verus! {

/// The number of frames that the allocator of a temporary page holds.
pub const TINY_FRAMES: usize = 3;

/// The number of frames that three slots hold.
pub open spec fn held(slots: Seq<Option<Frame>>) -> nat {
    ((if slots[0].is_some() {
        1int
    } else {
        0int
    }) + (if slots[1].is_some() {
        1int
    } else {
        0int
    }) + (if slots[2].is_some() {
        1int
    } else {
        0int
    })) as nat
}

/// An allocator that holds up to three frames: as many as the tables that
/// may be missing on the way to one page.
pub struct TinyAllocator {
    frames: Vec<Option<Frame>>,
}

impl TinyAllocator {
    /// The three slots.
    pub closed spec fn slots(&self) -> Seq<Option<Frame>> {
        self.frames@
    }

    /// Takes three frames, or as many as there are, from `allocator`.
    pub fn new<A: FrameAllocator>(allocator: &mut A) -> (tiny: TinyAllocator)
        requires
            old(allocator).wf(),
        ensures
            final(allocator).wf(),
            tiny.wf(),
            forall|g: int| #[trigger] final(allocator).available(g) ==> old(allocator).available(g),
            forall|g: int| #[trigger] tiny.available(g) ==> old(allocator).available(g),
            old(allocator).exclusive() ==> final(allocator).exclusive() && tiny.exclusive()
                && forall|g: int| #[trigger] tiny.available(g) ==> !final(allocator).available(g),
            // Where `allocator` promises three frames, the three slots are
            // filled; no more than three frames are taken.
            old(allocator).promises(3) ==> tiny.promises(3),
            forall|n: nat| old(allocator).promises(n + 3) ==> #[trigger] final(allocator).promises(n),
    {
        let mut frames: Vec<Option<Frame>> = Vec::new();
        let ghost start = *allocator;
        let mut i: usize = 0;
        while i < TINY_FRAMES
            invariant
                i <= TINY_FRAMES,
                frames@.len() == i,
                start == *old(allocator),
                allocator.wf(),
                forall|m: nat| start.promises((m + i) as nat) ==> #[trigger] allocator.promises(m),
                start.promises(3) ==> forall|k: int| 0 <= k < i ==> (#[trigger] frames@[k]).is_some(),
                forall|k: int|
                    0 <= k < i ==> ((#[trigger] frames@[k]) matches Some(f) ==> f.valid()
                        && start.available(f.number as int)),
                forall|g: int| #[trigger] allocator.available(g) ==> start.available(g),
                start.exclusive() ==> allocator.exclusive(),
                start.exclusive() ==> forall|k: int|
                    0 <= k < i ==> ((#[trigger] frames@[k]) matches Some(f)
                        ==> !allocator.available(f.number as int)),
                start.exclusive() ==> forall|a: int, b: int|
                    #![trigger frames@[a], frames@[b]]
                    0 <= a < i && 0 <= b < i && a != b && frames@[a].is_some() ==> frames@[a]
                        != frames@[b],
            decreases TINY_FRAMES - i,
        {
            let ghost middle = *allocator;
            proof {
                if start.promises(3) {
                    assert(middle.promises((3 - i) as nat));
                    middle.lemma_promises((3 - i) as nat, 1);
                }
            }
            let frame = allocator.allocate_frames(1);
            proof {
                assert forall|m: nat| start.promises((m + i + 1) as nat) implies #[trigger] allocator.promises(m) by {
                    assert(middle.promises(m + 1));
                }
            }
            proof {
                if frame is Some {
                    let n = frame->0.number as int;
                    assert(middle.available(n));
                    if start.exclusive() {
                        assert(!allocator.available(n));
                        assert forall|k: int| 0 <= k < i implies ((
                        #[trigger] frames@[k]) matches Some(f) ==> f.number != n) by {
                            if frames@[k] is Some {
                                assert(!middle.available(frames@[k]->0.number as int));
                            }
                        }
                    }
                }
                if start.exclusive() {
                    assert forall|k: int| 0 <= k < i implies ((
                    #[trigger] frames@[k]) matches Some(f) ==> !allocator.available(
                        f.number as int,
                    )) by {
                        if frames@[k] is Some {
                            assert(!middle.available(frames@[k]->0.number as int));
                        }
                    }
                }
            }
            frames.push(frame);
            i += 1;
        }
        let tiny = TinyAllocator { frames };
        proof {
            assert forall|g: int| #[trigger] tiny.available(g) implies start.available(g) by {
                let k = choose|k: int| 0 <= k < 3 && tiny.slots()[k] == Some(Frame { number: g as u64 });
                assert(frames@[k] is Some);
            }
            if start.exclusive() {
                assert forall|g: int| #[trigger] tiny.available(g) implies !allocator.available(
                    g,
                ) by {
                    let k = choose|k: int|
                        0 <= k < 3 && tiny.slots()[k] == Some(Frame { number: g as u64 });
                    assert(frames@[k] is Some);
                }
            }
        }
        tiny
    }
}

impl FrameAllocator for TinyAllocator {
    open spec fn wf(&self) -> bool {
        &&& self.slots().len() == TINY_FRAMES
        &&& forall|i: int|
            0 <= i < TINY_FRAMES ==> ((#[trigger] self.slots()[i]) matches Some(f) ==> f.valid())
    }

    /// A frame may be handed out if a slot holds it.
    open spec fn available(&self, frame: int) -> bool {
        0 <= frame <= MAX_FRAME_NUMBER && exists|i: int|
            0 <= i < TINY_FRAMES && #[trigger] self.slots()[i] == Some(
                Frame { number: frame as u64 },
            )
    }

    /// A request for one frame takes the frame out of the first slot that
    /// holds one, and fails only where none does. Every other request is
    /// turned down.
    open spec fn served(before: Self, after: Self, count: usize, frame: Option<Frame>) -> bool {
        &&& count != 1 ==> frame.is_none() && after == before
        &&& count == 1 ==> (frame.is_none() <==> forall|i: int|
            0 <= i < TINY_FRAMES ==> (#[trigger] before.slots()[i]).is_none())
        &&& frame matches Some(f) ==> exists|i: int|
            0 <= i < TINY_FRAMES && before.slots()[i] == Some(f) && after.slots() == before.slots().update(
                i,
                None,
            ) && forall|j: int| 0 <= j < i ==> (#[trigger] before.slots()[j]).is_none()
        &&& frame.is_none() ==> after == before
    }

    /// A single frame that is given back is put into the first empty slot;
    /// where no slot is empty, and where more than one frame is given back,
    /// the allocator lets the frames go.
    open spec fn gave_back(before: Self, after: Self, frame: Frame, count: usize) -> bool {
        &&& count != 1 ==> after == before
        &&& count == 1 ==> {
            ||| exists|i: int|
                0 <= i < TINY_FRAMES && before.slots()[i].is_none() && after.slots() == before.slots().update(
                    i,
                    Some(frame),
                ) && forall|j: int| 0 <= j < i ==> (#[trigger] before.slots()[j]).is_some()
            ||| after == before && forall|j: int| 0 <= j < TINY_FRAMES ==> (#[trigger] before.slots()[j]).is_some()
        }
    }

    /// The allocator promises as many frames as its slots hold.
    open spec fn promises(&self, n: nat) -> bool {
        n <= held(self.slots())
    }

    proof fn lemma_promises(&self, n: nat, m: nat) {
    }

    /// No frame is held by two slots.
    open spec fn exclusive(&self) -> bool {
        forall|a: int, b: int|
            #![trigger self.slots()[a], self.slots()[b]]
            0 <= a < TINY_FRAMES && 0 <= b < TINY_FRAMES && a != b && self.slots()[a].is_some()
                ==> self.slots()[a] != self.slots()[b]
    }

    /// The allocator reports no frame as used.
    open spec fn spec_used_frames(&self) -> usize {
        0
    }

    /// The allocator reports no frame as free.
    open spec fn spec_free_frames(&self) -> usize {
        0
    }

    fn set_noncore(&mut self, noncore: bool)
        ensures
            *final(self) == *old(self),
    {
    }

    fn used_frames(&self) -> (count: usize) {
        0
    }

    fn free_frames(&self) -> (count: usize) {
        0
    }

    /// A request for one frame takes the frame out of the first slot that
    /// holds one. Every other request is turned down.
    fn allocate_frames(&mut self, count: usize) -> (frame: Option<Frame>)
        ensures
            count != 1 ==> frame.is_none() && *final(self) == *old(self),
            count == 1 ==> (frame.is_none() <==> forall|i: int|
                0 <= i < TINY_FRAMES ==> (#[trigger] old(self).slots()[i]).is_none()),
            frame matches Some(f) ==> exists|i: int|
                0 <= i < TINY_FRAMES && old(self).slots()[i] == Some(f) && final(self).slots()
                    == old(self).slots().update(i, None) && forall|j: int|
                    0 <= j < i ==> (#[trigger] old(self).slots()[j]).is_none(),
    {
        if count != 1 {
            return None;
        }
        let mut i: usize = 0;
        while i < TINY_FRAMES
            invariant
                i <= TINY_FRAMES,
                count == 1,
                *self == *old(self),
                self.wf(),
                forall|j: int| 0 <= j < i ==> (#[trigger] self.slots()[j]).is_none(),
            decreases TINY_FRAMES - i,
        {
            if self.frames[i].is_some() {
                let frame = self.frames[i].take();
                proof {
                    let before = old(self).slots();
                    let after = self.slots();
                    let f = frame->0;
                    assert(after == before.update(i as int, None));
                    assert(before[i as int] == Some(f));
                    assert(old(self).slots()[i as int] matches Some(x) ==> x.valid());
                    assert forall|g: int| #[trigger] self.available(g) implies old(self).available(
                        g,
                    ) by {
                        let k = choose|k: int|
                            0 <= k < TINY_FRAMES && after[k] == Some(Frame { number: g as u64 });
                        assert(before[k] == Some(Frame { number: g as u64 }));
                    }
                    if old(self).exclusive() {
                        assert forall|a: int, b: int|
                            #![trigger after[a], after[b]]
                            0 <= a < TINY_FRAMES && 0 <= b < TINY_FRAMES && a != b
                                && after[a].is_some() implies after[a] != after[b] by {
                            assert(before[a] == after[a]);
                            if b != i {
                                assert(before[b] == after[b]);
                            }
                        }
                        assert forall|g: int| f.number <= g < f.number + count implies !#[trigger] self.available(
                        g) by {
                            if self.available(g) {
                                let k = choose|k: int|
                                    0 <= k < TINY_FRAMES && after[k] == Some(
                                        Frame { number: g as u64 },
                                    );
                                assert(k != i);
                                assert(before[k] == after[k]);
                                assert(Frame { number: g as u64 } == f);
                                assert(before[k].is_some());
                                assert(before[k] == before[i as int]);
                            }
                        }
                    }
                }
                return frame;
            }
            i += 1;
        }
        None
    }

    /// A single frame that is given back is put into the first empty slot;
    /// where no slot is empty, and where more than one frame is given back,
    /// the allocator lets the frames go.
    fn deallocate_frames(&mut self, frame: Frame, count: usize)
        ensures
            count != 1 ==> *final(self) == *old(self),
            count == 1 ==> {
                ||| exists|i: int|
                    0 <= i < TINY_FRAMES && old(self).slots()[i].is_none() && final(self).slots()
                        == old(self).slots().update(i, Some(frame)) && forall|j: int|
                        0 <= j < i ==> (#[trigger] old(self).slots()[j]).is_some()
                ||| *final(self) == *old(self) && forall|j: int|
                    0 <= j < TINY_FRAMES ==> (#[trigger] old(self).slots()[j]).is_some()
            },
    {
        if count != 1 {
            return;
        }
        let mut i: usize = 0;
        while i < TINY_FRAMES
            invariant
                i <= TINY_FRAMES,
                count == 1,
                frame.number + count <= MAX_FRAME_NUMBER + 1,
                *self == *old(self),
                self.wf(),
                forall|j: int| 0 <= j < i ==> (#[trigger] self.slots()[j]).is_some(),
            decreases TINY_FRAMES - i,
        {
            if self.frames[i].is_none() {
                let ghost number = frame.number as int;
                self.frames[i] = Some(frame);
                proof {
                    let before = old(self).slots();
                    let after = self.slots();
                    assert(after == before.update(i as int, Some(Frame { number: number as u64 })));
                    assert forall|g: int| #[trigger] self.available(g) implies old(self).available(
                        g,
                    ) || number <= g < number + count by {
                        let k = choose|k: int|
                            0 <= k < TINY_FRAMES && after[k] == Some(Frame { number: g as u64 });
                        if k != i {
                            assert(before[k] == after[k]);
                            assert(old(self).slots()[k] == Some(Frame { number: g as u64 }));
                        } else {
                            assert(g == number);
                        }
                    }
                    if old(self).exclusive() && (forall|g: int|
                        number <= g < number + count ==> !#[trigger] old(self).available(g)) {
                        assert(number <= number < number + count);
                        assert(!old(self).available(number));
                        assert forall|a: int, b: int|
                            #![trigger after[a], after[b]]
                            0 <= a < TINY_FRAMES && 0 <= b < TINY_FRAMES && a != b
                                && after[a].is_some() implies after[a] != after[b] by {
                            if a != i && b != i {
                                assert(before[a] == after[a]);
                                assert(before[b] == after[b]);
                            } else if a == i {
                                if after[b] == after[a] {
                                    assert(before[b] == Some(Frame { number: number as u64 }));
                                }
                            } else {
                                if after[b] == after[a] {
                                    assert(before[a] == Some(Frame { number: number as u64 }));
                                }
                            }
                        }
                    }
                }
                return;
            }
            i += 1;
        }
    }
}

/// A page that is kept free, with a small allocator of its own for the
/// tables that are needed to map it.
pub struct TemporaryPage {
    page: Page,
    allocator: TinyAllocator,
}

impl TemporaryPage {
    /// The page.
    pub closed spec fn page(&self) -> Page {
        self.page
    }

    /// The allocator of the page.
    pub closed spec fn allocator(&self) -> TinyAllocator {
        self.allocator
    }

    /// The page can be mapped, and its allocator is consistent.
    pub open spec fn wf(&self) -> bool {
        mappable(self.page()) && self.allocator().wf()
    }

    /// A temporary page at `page`, whose allocator is filled from
    /// `allocator`.
    pub fn new<A: FrameAllocator>(page: Page, allocator: &mut A) -> (temporary: TemporaryPage)
        requires
            old(allocator).wf(),
        ensures
            final(allocator).wf(),
            temporary.page() == page,
            temporary.allocator().wf(),
            // Where `allocator` promises three frames, the page's own
            // allocator holds three; no more than three frames are taken.
            old(allocator).promises(3) ==> temporary.allocator().promises(3),
            forall|n: nat| old(allocator).promises(n + 3) ==> #[trigger] final(allocator).promises(n),
            forall|g: int| #[trigger] final(allocator).available(g) ==> old(allocator).available(g),
            // The frames that the page's own allocator holds were taken
            // from `allocator`; where that holds no frame twice they differ
            // from one another and are not left in it.
            forall|g: int| #[trigger] temporary.allocator().available(g) ==> old(allocator).available(g),
            old(allocator).exclusive() ==> final(allocator).exclusive() && temporary.allocator().exclusive()
                && forall|g: int| #[trigger] temporary.allocator().available(g) ==> !final(allocator).available(g),
    {
        TemporaryPage { page: page, allocator: TinyAllocator::new(allocator) }
    }

    /// The virtual address of the page.
    pub fn start_address(&self) -> (address: VirtualAddress)
        requires
            self.page().valid(),
        ensures
            address == self.page().number * 4096,
    {
        self.page.start_address()
    }

    /// Maps the temporary page to the given frame in the active table, as
    /// writable, flushes it, and returns the start address of the temporary
    /// page. Tables that are missing are made from the frames that the
    /// page's own allocator holds; where it holds too few the call fails and
    /// nothing is mapped differently.
    pub fn map(&mut self, frame: Frame, active_table: &mut ActivePageTable) -> (result: Result<
        VirtualAddress,
        MapError,
    >)
        requires
            old(self).wf(),
            old(active_table).wf(),
            old(active_table).mapper.lookup(old(self).page()).is_none(),
            frame.valid(),
        ensures
            final(self).wf(),
            final(self).page() == old(self).page(),
            final(active_table).wf(),
            final(active_table).p4_frame == old(active_table).p4_frame,
            final(active_table).mapper.spec_p4().recursive_frame() == old(active_table).mapper.spec_p4().recursive_frame(),
            forall|q: Page|
                q.valid() && q != old(self).page() ==> #[trigger] final(active_table).mapper.lookup(
                    q,
                ) == old(active_table).mapper.lookup(q),
            match result {
                Ok(address) => {
                    &&& address == old(self).page().number * 4096
                    &&& final(active_table).mapper.lookup(old(self).page()) == Some(
                        new_mapping(frame, EntryFlags { bits: WRITABLE }),
                    )
                    &&& final(active_table).mapper.maps_small(old(self).page())
                    &&& final(active_table).mapper.stale() == old(active_table).mapper.stale().remove(
                        old(self).page(),
                    )
                    &&& final(active_table).pending@ == old(active_table).pending@.push(
                        HardwareOp::FlushPage((old(self).page().number * 4096) as u64),
                    )
                },
                Err(e) => {
                    &&& e == MapError::OutOfMemory
                    &&& final(active_table).mapper.lookup(old(self).page()).is_none()
                    &&& final(active_table).mapper.stale() == old(active_table).mapper.stale()
                    &&& final(active_table).pending@ == old(active_table).pending@
                },
            },
            // The page is mapped where its own allocator holds a frame for
            // every table that is missing: always where it holds three, and
            // without any where the tables for the page are there.
            old(self).allocator().promises(old(active_table).mapper.missing_tables(old(self).page()))
                ==> result is Ok,
            old(active_table).mapper.has_tables_for(old(self).page()) ==> result is Ok,
            forall|q: Page|
                old(active_table).mapper.has_tables_for(q) ==> #[trigger] final(active_table).mapper.has_tables_for(q),
    {
        proof {
            lemma_table_flags();
        }
        let flags = EntryFlags { bits: WRITABLE };
        proof {
            active_table.mapper.spec_p4().lemma_missing_tables(self.page);
            self.allocator.lemma_promises(0, 0);
        }
        match active_table.mapper.map_to(self.page, frame, flags, &mut self.allocator) {
            Ok(flush) => {
                let ghost mapped = active_table.mapper;
                flush.flush(active_table);
                proof {
                    assert(old(active_table).mapper.stale().insert(self.page).remove(self.page)
                        =~= old(active_table).mapper.stale().remove(self.page));
                    assert forall|q: Page|
                        q.valid() && q != self.page implies #[trigger] active_table.mapper.lookup(q)
                        == old(active_table).mapper.lookup(q) by {
                        assert(mapped.lookup(q) == old(active_table).mapper.lookup(q));
                    }
                    assert forall|q: Page| old(active_table).mapper.has_tables_for(q) implies #[trigger] active_table.mapper.has_tables_for(
                        q,
                    ) by {
                        assert(mapped.has_tables_for(q));
                    }
                }
                Ok(self.page.start_address())
            },
            Err(e) => Err(e),
        }
    }

    /// Unmaps the temporary page in the active table and flushes it. The
    /// tables on the way are kept, and the frame that the page showed is
    /// left to its owner.
    pub fn unmap(&mut self, active_table: &mut ActivePageTable)
        requires
            old(self).wf(),
            old(active_table).wf(),
            old(active_table).mapper.maps_small(old(self).page()),
        ensures
            final(self).wf(),
            *final(self) == *old(self),
            final(active_table).wf(),
            final(active_table).p4_frame == old(active_table).p4_frame,
            final(active_table).mapper.spec_p4().recursive_frame() == old(active_table).mapper.spec_p4().recursive_frame(),
            final(active_table).mapper.lookup(old(self).page()).is_none(),
            forall|q: Page|
                q.valid() && q != old(self).page() ==> #[trigger] final(active_table).mapper.lookup(
                    q,
                ) == old(active_table).mapper.lookup(q),
            final(active_table).mapper.stale() == old(active_table).mapper.stale().remove(
                old(self).page(),
            ),
            final(active_table).pending@ == old(active_table).pending@.push(
                HardwareOp::FlushPage((old(self).page().number * 4096) as u64),
            ),
            // The tables on the way stay: the page can be mapped again
            // without a frame.
            final(active_table).mapper.has_tables_for(old(self).page()),
    {
        let (result, _frame) = active_table.mapper.unmap_return(self.page, true, &mut self.allocator);
        let ghost unmapped = active_table.mapper;
        result.flush(active_table);
        proof {
            assert(old(active_table).mapper.stale().insert(self.page).remove(self.page) =~= old(active_table).mapper.stale().remove(self.page));
            assert forall|q: Page|
                q.valid() && q != self.page implies #[trigger] active_table.mapper.lookup(q) == old(active_table).mapper.lookup(q) by {
                assert(unmapped.lookup(q) == old(active_table).mapper.lookup(q));
            }
        }
    }
}

} // verus!
