//! Physical frames and the interface of the allocators that hand them out.

use vstd::prelude::*;
use crate::memory::address::PAddr;

verus! {

/// The size of a frame, and of a page, in bytes.
pub const PAGE_SIZE: usize = 4096;

/// The largest frame number whose bytes have a physical address of at most
/// 52 bits, the widest the architecture defines.
pub const MAX_FRAME_NUMBER: u64 = 0x0000_00ff_ffff_ffff;

/// One frame of physical memory, named by its number: its first byte's
/// physical address divided by the frame size.
#[derive(Debug, PartialEq, Eq, Structural, PartialOrd, Ord)]
pub struct Frame {
    pub number: u64,
}

impl Frame {
    /// The frame lies within the physical address space of the architecture.
    pub open spec fn valid(&self) -> bool {
        self.number <= MAX_FRAME_NUMBER
    }

    /// The frame that holds the byte at `address`.
    pub fn containing_address(address: u64) -> (frame: Frame)
        ensures
            frame.number == address / 4096,
            frame.valid() <==> address < 0x0010_0000_0000_0000,
    {
        Frame { number: address / (PAGE_SIZE as u64) }
    }

    /// The physical address of the frame's first byte.
    pub fn start_address(&self) -> (address: PAddr)
        requires
            self.valid(),
        ensures
            address.0 == self.number * 4096,
    {
        PAddr(self.number * (PAGE_SIZE as u64))
    }

    /// A second name for the same frame.
    pub fn clone(&self) -> (frame: Frame)
        ensures
            frame == *self,
    {
        Frame { number: self.number }
    }

    /// The frames from `start` to `end`, both included, in rising order.
    pub fn range_inclusive(start: Frame, end: Frame) -> (iter: FrameIter)
        ensures
            iter.spec_start() == start.number,
            iter.spec_end() == end.number,
    {
        FrameIter { start: start, end: end }
    }
}

/// A run of frames that is walked from its first to its last.
pub struct FrameIter {
    start: Frame,
    end: Frame,
}

impl FrameIter {
    /// The number of the frame that comes next.
    pub closed spec fn spec_start(&self) -> u64 {
        self.start.number
    }

    /// The number of the last frame of the run.
    pub closed spec fn spec_end(&self) -> u64 {
        self.end.number
    }

    /// The frame numbers still to come.
    pub open spec fn remaining(&self) -> Seq<u64> {
        if self.spec_start() <= self.spec_end() {
            Seq::new((self.spec_end() - self.spec_start() + 1) as nat, |i: int| (self.spec_start() + i) as u64)
        } else {
            Seq::empty()
        }
    }

    /// Hands out the next frame of the run, or `None` once the run is used
    /// up. A run that ends at the largest `u64` can never be walked past its
    /// end, so it is left out.
    pub fn next(&mut self) -> (item: Option<Frame>)
        requires
            old(self).spec_end() < u64::MAX,
        ensures
            final(self).spec_end() == old(self).spec_end(),
            old(self).remaining().len() == 0 ==> item.is_none() && *final(self) == *old(self),
            old(self).remaining().len() > 0 ==> item == Some(Frame { number: old(self).remaining()[0] })
                && final(self).remaining() == old(self).remaining().drop_first(),
    {
        if self.start.number <= self.end.number {
            let frame = self.start.clone();
            self.start.number += 1;
            assert(self.remaining() =~= old(self).remaining().drop_first());
            Some(frame)
        } else {
            None
        }
    }
}

/// An allocator of physical frames.
///
/// A request is for a run of `count` frames with consecutive numbers and is
/// answered with the first frame of the run.
pub trait FrameAllocator: Sized {
    /// The allocator's bookkeeping is consistent.
    spec fn wf(&self) -> bool;

    /// The allocator may still hand out the frame with this number.
    spec fn available(&self, frame: int) -> bool;

    /// The allocator holds no frame twice, so that a frame it hands out is
    /// no longer available afterwards.
    spec fn exclusive(&self) -> bool;

    /// What a request for `count` frames that is answered with `frame`
    /// makes of the allocator `before`: each allocator says here which run
    /// it hands out, and when it hands out none.
    spec fn served(before: Self, after: Self, count: usize, frame: Option<Frame>) -> bool;

    /// What giving back the run of `count` frames from `frame` on makes of
    /// the allocator `before`: each allocator says here what it does with
    /// the frames.
    spec fn gave_back(before: Self, after: Self, frame: Frame, count: usize) -> bool;

    /// The next `n` requests for one frame are served, whatever is given
    /// back in between.
    spec fn promises(&self, n: nat) -> bool;

    /// Nothing is promised by an allocator that promises no frame, and an
    /// allocator that promises frames promises fewer frames too.
    proof fn lemma_promises(&self, n: nat, m: nat)
        requires
            self.wf(),
        ensures
            self.promises(0),
            self.promises(n) && m <= n ==> self.promises(m),
    ;

    /// Tells the allocator that the core of the kernel has been set up.
    fn set_noncore(&mut self, noncore: bool)
        requires
            old(self).wf(),
        ensures
            final(self).wf(),
            forall|g: int| final(self).available(g) == old(self).available(g),
            final(self).exclusive() == old(self).exclusive(),
    ;

    /// What the allocator reports as the number of frames in use.
    spec fn spec_used_frames(&self) -> usize;

    /// What the allocator reports as the number of frames that can still be
    /// handed out.
    spec fn spec_free_frames(&self) -> usize;

    /// The number of frames that are in use.
    fn used_frames(&self) -> (count: usize)
        requires
            self.wf(),
        ensures
            count == self.spec_used_frames(),
    ;

    /// The number of frames that can still be handed out.
    fn free_frames(&self) -> (count: usize)
        requires
            self.wf(),
        ensures
            count == self.spec_free_frames(),
    ;

    /// Hands out a run of `count` frames, or `None` when the request cannot
    /// be met.
    ///
    /// A run that is handed out lies within physical memory, and each of its
    /// frames was available. No frame becomes available by a request. Where
    /// the allocator holds no frame twice, the frames of the run are not
    /// available afterwards: they are not handed out again before they are
    /// given back.
    fn allocate_frames(&mut self, count: usize) -> (frame: Option<Frame>)
        requires
            old(self).wf(),
        ensures
            final(self).wf(),
            frame matches Some(f) ==> count > 0 && f.number + count - 1 <= MAX_FRAME_NUMBER,
            frame matches Some(f) ==> forall|g: int|
                f.number <= g < f.number + count ==> #[trigger] old(self).available(g),
            forall|g: int| #[trigger] final(self).available(g) ==> old(self).available(g),
            old(self).exclusive() ==> final(self).exclusive(),
            old(self).exclusive() ==> (frame matches Some(f) ==> forall|g: int|
                f.number <= g < f.number + count ==> !#[trigger] final(self).available(g)),
            Self::served(*old(self), *final(self), count, frame),
            // A frame that was promised is handed out, and the promise is
            // one frame shorter then.
            count == 1 && old(self).promises(1) ==> frame.is_some(),
            count == 1 ==> forall|n: nat| old(self).promises(n + 1) ==> #[trigger] final(self).promises(n),
    ;

    /// Takes back the run of `count` frames that starts with `frame`.
    ///
    /// Only frames of the run can become available by this. An allocator
    /// that holds no frame twice stays so as long as none of the frames given
    /// back was available.
    fn deallocate_frames(&mut self, frame: Frame, count: usize)
        requires
            old(self).wf(),
            frame.number + count <= MAX_FRAME_NUMBER + 1,
        ensures
            final(self).wf(),
            forall|g: int| #[trigger]
                final(self).available(g) ==> old(self).available(g) || frame.number <= g
                    < frame.number + count,
            old(self).exclusive() && (forall|g: int|
                frame.number <= g < frame.number + count ==> !#[trigger] old(self).available(g))
                ==> final(self).exclusive(),
            Self::gave_back(*old(self), *final(self), frame, count),
            forall|n: nat| old(self).promises(n) ==> #[trigger] final(self).promises(n),
    ;
}

/// The frames of the run of `count` frames from `first` on.
pub open spec fn run_of(first: int, count: int) -> Set<int> {
    Set::new(|g: int| first <= g < first + count)
}

/// None of the frames in `live` is available: `live` is a record of frames
/// that were handed out and not given back.
pub open spec fn tracks<A: FrameAllocator>(allocator: A, live: Set<int>) -> bool {
    forall|g: int| live.contains(g) ==> !#[trigger] allocator.available(g)
}

/// No frame is handed out while it is live.
///
/// Where `live` is a record of the frames that were handed out and not
/// given back, a run that an allocator which holds no frame twice hands out
/// has no frame in `live`, and the record with the run added is a record of
/// the allocator afterwards. The hypotheses about `before` and `after` are
/// what `allocate_frames` ensures of the allocator before and after the
/// call.
pub proof fn lemma_handed_out_frames_are_not_live<A: FrameAllocator>(
    before: A,
    after: A,
    first: int,
    count: int,
    live: Set<int>,
)
    requires
        tracks(before, live),
        forall|g: int| first <= g < first + count ==> #[trigger] before.available(g),
        forall|g: int| #[trigger] after.available(g) ==> before.available(g),
        forall|g: int| first <= g < first + count ==> !#[trigger] after.available(g),
    ensures
        forall|g: int| first <= g < first + count ==> !live.contains(g),
        tracks(after, live.union(run_of(first, count))),
{
    assert forall|g: int| first <= g < first + count implies !live.contains(g) by {
        assert(before.available(g));
    }
    assert forall|g: int| live.union(run_of(first, count)).contains(g) implies !#[trigger] after.available(
        g,
    ) by {
        if live.contains(g) {
            assert(!before.available(g));
        }
    }
}

/// Giving frames back makes only them available again.
///
/// Where `live` is a record of the frames that were handed out and not
/// given back, the record without the run that is given back is a record of
/// the allocator afterwards. The hypothesis about `before` and `after` is
/// what `deallocate_frames` ensures.
pub proof fn lemma_given_back_frames_leave_the_rest_live<A: FrameAllocator>(
    before: A,
    after: A,
    first: int,
    count: int,
    live: Set<int>,
)
    requires
        tracks(before, live),
        forall|g: int| #[trigger]
            after.available(g) ==> before.available(g) || first <= g < first + count,
    ensures
        tracks(after, live.difference(run_of(first, count))),
{
    assert forall|g: int| live.difference(run_of(first, count)).contains(g) implies !#[trigger] after.available(
        g,
    ) by {
        assert(!before.available(g));
    }
}

} // verus!
