//! An allocator that keeps the frames given back to it and hands them out
//! again before it asks another allocator for new ones.

use vstd::prelude::*;
use crate::memory::frame::{Frame, FrameAllocator, MAX_FRAME_NUMBER};

verus! {

/// The free list after the run of `count` frames from `first` on has been
/// given back: the frames of the run are put on top, in rising order.
pub open spec fn free_list_after_release(free: Seq<u64>, first: u64, count: nat) -> Seq<u64> {
    free + Seq::new(count, |i: int| (first + i) as u64)
}

/// The frame with this number is on the free list.
pub open spec fn on_free_list(free: Seq<u64>, frame: int) -> bool {
    exists|i: int| 0 <= i < free.len() && #[trigger] free[i] == frame
}

/// What a request for `count` frames does to a recycling allocator: a
/// request for one frame takes the frame given back last, if the free list
/// holds any, and leaves the wrapped allocator alone; every other request is
/// handed on to the wrapped allocator and leaves the free list alone.
pub open spec fn recycled<T: FrameAllocator>(
    before: RecycleAllocator<T>,
    after: RecycleAllocator<T>,
    count: usize,
    frame: Option<Frame>,
) -> bool {
    &&& after.noncore() == before.noncore()
    &&& count == 1 && before.free_list().len() > 0 ==> {
        &&& frame == Some(Frame { number: before.free_list().last() })
        &&& after.free_list() == before.free_list().drop_last()
        &&& after.inner() == before.inner()
    }
    &&& !(count == 1 && before.free_list().len() > 0) ==> {
        &&& after.free_list() == before.free_list()
        &&& frame matches Some(f) ==> forall|g: int|
            f.number <= g < f.number + count ==> #[trigger] before.inner().available(g)
        &&& forall|g: int| #[trigger] after.inner().available(g) ==> before.inner().available(g)
        &&& T::served(before.inner(), after.inner(), count, frame)
    }
}

/// What giving back the run of `count` frames from `frame` on does to a
/// recycling allocator: every frame of the run is put on the free list, the
/// lowest first, and the wrapped allocator is left alone.
pub open spec fn released<T: FrameAllocator>(
    before: RecycleAllocator<T>,
    after: RecycleAllocator<T>,
    frame: Frame,
    count: usize,
) -> bool {
    &&& after.free_list() == free_list_after_release(before.free_list(), frame.number, count as nat)
    &&& after.inner() == before.inner()
    &&& after.noncore() == before.noncore()
}

/// Wraps a frame allocator with a stack of frames that were given back.
///
/// A request for a single frame is served from the top of the stack while
/// there is one; every other request goes to the wrapped allocator.
pub struct RecycleAllocator<T: FrameAllocator> {
    inner: T,
    noncore: bool,
    free: Vec<u64>,
}

impl<T: FrameAllocator> RecycleAllocator<T> {
    /// The numbers of the frames that were given back and not handed out
    /// again, the one given back last at the end.
    pub closed spec fn free_list(&self) -> Seq<u64> {
        self.free@
    }

    /// The wrapped allocator.
    pub closed spec fn inner(&self) -> T {
        self.inner
    }

    /// Whether the allocator was told that the core has been set up.
    pub closed spec fn noncore(&self) -> bool {
        self.noncore
    }

    /// Wraps `inner`, with an empty free list.
    pub fn new(inner: T) -> (allocator: Self)
        requires
            inner.wf(),
        ensures
            allocator.wf(),
            allocator.inner() == inner,
            allocator.free_list() == Seq::<u64>::empty(),
            !allocator.noncore(),
            inner.exclusive() ==> allocator.exclusive(),
    {
        RecycleAllocator { inner, noncore: false, free: Vec::new() }
    }

    /// The number of frames on the free list.
    pub fn free_count(&self) -> (count: usize)
        ensures
            count == self.free_list().len(),
    {
        self.free.len()
    }
}

impl<T: FrameAllocator> FrameAllocator for RecycleAllocator<T> {
    open spec fn wf(&self) -> bool {
        &&& self.inner().wf()
        &&& forall|i: int|
            0 <= i < self.free_list().len() ==> #[trigger] self.free_list()[i] <= MAX_FRAME_NUMBER
    }

    /// A frame may be handed out if it is on the free list or if the
    /// wrapped allocator may hand it out.
    open spec fn available(&self, frame: int) -> bool {
        on_free_list(self.free_list(), frame) || self.inner().available(frame)
    }

    /// No frame is on the free list twice, and none that is on it may be
    /// handed out by the wrapped allocator.
    /// A request is served as `recycled` says: from the free list, or by
    /// the wrapped allocator as that one says.
    open spec fn served(before: Self, after: Self, count: usize, frame: Option<Frame>) -> bool {
        recycled(before, after, count, frame)
    }

    /// A run is given back as `released` says: onto the free list.
    open spec fn gave_back(before: Self, after: Self, frame: Frame, count: usize) -> bool {
        released(before, after, frame, count)
    }

    /// The allocator promises the frames on its free list, and behind them
    /// those that the wrapped allocator promises.
    open spec fn promises(&self, n: nat) -> bool {
        n <= self.free_list().len() || self.inner().promises((n - self.free_list().len()) as nat)
    }

    proof fn lemma_promises(&self, n: nat, m: nat) {
        let len = self.free_list().len();
        self.inner().lemma_promises(0, 0);
        if self.promises(n) && m <= n && m > len {
            self.inner().lemma_promises((n - len) as nat, (m - len) as nat);
        }
    }

    open spec fn exclusive(&self) -> bool {
        &&& self.inner().exclusive()
        &&& self.free_list().no_duplicates()
        &&& forall|i: int|
            0 <= i < self.free_list().len() ==> !self.inner().available(
                #[trigger] self.free_list()[i] as int,
            )
    }

    /// What the wrapped allocator reports as used, less the frames on the
    /// free list.
    open spec fn spec_used_frames(&self) -> usize {
        if self.inner().spec_used_frames() >= self.free_list().len() {
            (self.inner().spec_used_frames() - self.free_list().len()) as usize
        } else {
            0
        }
    }

    /// What the wrapped allocator reports as free, and the frames on the
    /// free list; the largest `usize` where the sum is beyond it.
    open spec fn spec_free_frames(&self) -> usize {
        if self.inner().spec_free_frames() + self.free_list().len() <= usize::MAX {
            (self.inner().spec_free_frames() + self.free_list().len()) as usize
        } else {
            usize::MAX
        }
    }

    fn set_noncore(&mut self, noncore: bool)
        ensures
            final(self).noncore() == noncore,
            final(self).free_list() == old(self).free_list(),
    {
        self.noncore = noncore;
        self.inner.set_noncore(noncore);
        assert(self.free@ == old(self).free@);
        assert forall|i: int| 0 <= i < self.free_list().len() implies !self.inner().available(
            #[trigger] self.free_list()[i] as int,
        ) == !old(self).inner().available(old(self).free_list()[i] as int) by {}
    }

    fn used_frames(&self) -> (count: usize) {
        let used = self.inner.used_frames();
        let free = self.free.len();
        if used >= free {
            used - free
        } else {
            0
        }
    }

    fn free_frames(&self) -> (count: usize) {
        let inner = self.inner.free_frames();
        let free = self.free.len();
        if inner <= usize::MAX - free {
            inner + free
        } else {
            usize::MAX
        }
    }

    /// A request for one frame takes the frame given back last, if the free
    /// list holds any, and leaves the wrapped allocator alone. Every other
    /// request is handed on to the wrapped allocator and leaves the free
    /// list alone.
    fn allocate_frames(&mut self, count: usize) -> (frame: Option<Frame>)
        ensures
            recycled(*old(self), *final(self), count, frame),
    {
        if count == 1 && self.free.len() > 0 {
            let ghost free = self.free@;
            let number = self.free.pop().unwrap();
            proof {
                let last = free.len() - 1;
                assert(free[last] == number);
                assert(self.free@ =~= free.drop_last());
                assert forall|g: int| #[trigger] self.available(g) implies old(self).available(g) by {
                    if on_free_list(self.free@, g) {
                        let i = choose|i: int| 0 <= i < self.free@.len() && self.free@[i] == g;
                        assert(free[i] == g);
                    }
                }
                if old(self).exclusive() {
                    assert forall|g: int| number <= g < number + count implies !#[trigger] self.available(
                        g,
                    ) by {
                        if on_free_list(self.free@, g) {
                            let i = choose|i: int| 0 <= i < self.free@.len() && self.free@[i] == g;
                            assert(free[i] == free[last]);
                        }
                    }
                }
            }
            Some(Frame { number })
        } else {
            let frame = self.inner.allocate_frames(count);
            proof {
                if old(self).exclusive() && frame is Some {
                    let first = frame->0.number;
                    assert forall|g: int| first <= g < first + count implies !#[trigger] self.available(
                        g,
                    ) by {
                        if on_free_list(self.free@, g) {
                            let i = choose|i: int| 0 <= i < self.free@.len() && self.free@[i] == g;
                            assert(old(self).inner().available(self.free@[i] as int));
                        }
                    }
                }
            }
            frame
        }
    }

    /// Puts every frame of the run on the free list, the lowest first, and
    /// leaves the wrapped allocator alone.
    fn deallocate_frames(&mut self, frame: Frame, count: usize)
        ensures
            released(*old(self), *final(self), frame, count),
    {
        let ghost free = self.free@;
        let mut i: usize = 0;
        while i < count
            invariant
                i <= count,
                frame.number + count <= MAX_FRAME_NUMBER + 1,
                self.inner == old(self).inner,
                self.noncore == old(self).noncore,
                free == old(self).free@,
                self.free@ == free_list_after_release(free, frame.number, i as nat),
            decreases count - i,
        {
            self.free.push(frame.number + i as u64);
            assert(self.free@ =~= free_list_after_release(free, frame.number, (i + 1) as nat));
            i += 1;
        }
        proof {
            assert forall|n: nat| old(self).promises(n) implies #[trigger] self.promises(n) by {
                let len = free.len();
                let longer = self.free@.len();
                assert(longer == len + count);
                if n > longer {
                    old(self).inner().lemma_promises((n - len) as nat, (n - longer) as nat);
                }
            }
        }
        proof {
            let after = self.free@;
            assert(after.len() == free.len() + count);
            assert forall|k: int| 0 <= k < free.len() implies #[trigger] after[k] == free[k] by {}
            assert forall|k: int| free.len() <= k < after.len() implies #[trigger] after[k]
                == frame.number + (k - free.len()) by {}
            assert forall|k: int| 0 <= k < after.len() implies #[trigger] after[k]
                <= MAX_FRAME_NUMBER by {
                if k < free.len() {
                    assert(after[k] == free[k]);
                    assert(old(self).free_list()[k] <= MAX_FRAME_NUMBER);
                }
            }
            assert forall|g: int| #[trigger] self.available(g) implies old(self).available(g)
                || frame.number <= g < frame.number + count by {
                if on_free_list(after, g) {
                    let k = choose|k: int| 0 <= k < after.len() && after[k] == g;
                    if k < free.len() {
                        assert(free[k] == g);
                    }
                }
            }
            if old(self).exclusive() && (forall|g: int|
                frame.number <= g < frame.number + count ==> !#[trigger] old(self).available(g)) {
                assert forall|a: int, b: int|
                    0 <= a < after.len() && 0 <= b < after.len() && a != b implies after[a]
                    != after[b] by {
                    if a < free.len() && b >= free.len() {
                        assert(free[a] == after[a]);
                        assert(old(self).available(after[a] as int));
                        assert(!old(self).available(after[b] as int));
                    }
                    if b < free.len() && a >= free.len() {
                        assert(free[b] == after[b]);
                        assert(old(self).available(after[b] as int));
                        assert(!old(self).available(after[a] as int));
                    }
                    if a < free.len() && b < free.len() {
                        assert(free[a] != free[b]);
                    }
                }
                assert forall|k: int| 0 <= k < after.len() implies !self.inner().available(
                    #[trigger] after[k] as int,
                ) by {
                    if k < free.len() {
                        assert(after[k] == free[k]);
                    } else {
                        assert(!old(self).available(after[k] as int));
                    }
                }
            }
        }
    }
}

/// A frame that is given back is the next one handed out: after a single
/// frame has been released it lies on top of the free list, and taking it
/// from there leaves the list as it was before the release.
pub proof fn lemma_released_frame_is_reused_first(free: Seq<u64>, frame: u64)
    ensures
        free_list_after_release(free, frame, 1).len() > 0,
        free_list_after_release(free, frame, 1).last() == frame,
        free_list_after_release(free, frame, 1).drop_last() == free,
{
    assert(free_list_after_release(free, frame, 1).drop_last() =~= free);
}

/// Of a run that is given back, the frame handed out next is the last of
/// the run.
pub proof fn lemma_released_run_is_reused_from_its_end(free: Seq<u64>, first: u64, count: nat)
    requires
        count > 0,
        first + count <= MAX_FRAME_NUMBER + 1,
    ensures
        free_list_after_release(free, first, count).last() == first + count - 1,
        free_list_after_release(free, first, count).drop_last() == free_list_after_release(
            free,
            first,
            (count - 1) as nat,
        ),
{
    assert(free_list_after_release(free, first, count).drop_last() =~= free_list_after_release(
        free,
        first,
        (count - 1) as nat,
    ));
}

} // verus!
