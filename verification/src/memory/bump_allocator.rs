//! An allocator that carves frames out of the usable regions of physical
//! memory in rising order and never takes one back.

use vstd::prelude::*;
use crate::memory::frame::{Frame, FrameAllocator, MAX_FRAME_NUMBER};

verus! {

/// A region of physical memory that the boot loader reported as usable,
/// given by the address of its first byte and its length in bytes.
#[derive(Debug, Clone, Copy, PartialEq, Eq, Structural)]
pub struct PhysicalArea {
    pub base: u64,
    pub length: u64,
}

impl PhysicalArea {
    /// The region is not empty and ends within the physical address space.
    pub open spec fn valid(&self) -> bool {
        self.length > 0 && self.base + self.length <= 0x0010_0000_0000_0000
    }

    /// The number of the frame that holds the region's first byte.
    #[verifier::opaque]
    pub open spec fn first_frame(&self) -> int {
        self.base as int / 4096
    }

    /// The number of the frame that holds the region's last byte.
    #[verifier::opaque]
    pub open spec fn last_frame(&self) -> int {
        (self.base + self.length - 1) / 4096
    }

    /// The frame with this number holds a byte of the region.
    pub open spec fn has_frame(&self, frame: int) -> bool {
        self.first_frame() <= frame <= self.last_frame()
    }

    /// The run of `count` frames that starts with frame `first` lies within
    /// the frames of the region.
    pub open spec fn contains_run(&self, first: int, count: int) -> bool {
        self.first_frame() <= first && first + count - 1 <= self.last_frame()
    }

    /// A region with the given first byte and length, or `None` where it
    /// would be empty or reach beyond the physical address space.
    pub fn new(base: u64, length: u64) -> (area: Option<PhysicalArea>)
        ensures
            area matches Some(a) ==> a.valid() && a.base == base && a.length == length,
            area.is_none() <==> !(PhysicalArea { base, length }).valid(),
    {
        if length > 0 && base <= 0x0010_0000_0000_0000 && length <= 0x0010_0000_0000_0000 - base {
            Some(PhysicalArea { base, length })
        } else {
            None
        }
    }

    /// The address of the region's first byte.
    pub fn start_address(&self) -> (address: u64)
        ensures
            address == self.base,
    {
        self.base
    }

    /// The length of the region in bytes.
    pub fn size(&self) -> (length: u64)
        ensures
            length == self.length,
    {
        self.length
    }

    fn first(&self) -> (number: u64)
        ensures
            number == self.first_frame(),
    {
        reveal(PhysicalArea::first_frame);
        self.base / 4096
    }

    fn last(&self) -> (number: u64)
        requires
            self.valid(),
        ensures
            number == self.last_frame(),
            number <= MAX_FRAME_NUMBER,
            self.first_frame() <= number,
    {
        proof {
            lemma_area_frames(*self);
        }
        (self.base + self.length - 1) / 4096
    }
}

/// Dividing by the frame size keeps the order of two addresses.
proof fn lemma_frame_number_monotone(a: int, b: int)
    requires
        0 <= a <= b,
    ensures
        0 <= a / 4096 <= b / 4096,
{
}

/// The frames of a valid region are numbered from its first to its last.
pub proof fn lemma_area_frames(area: PhysicalArea)
    requires
        area.valid(),
    ensures
        0 <= area.first_frame() <= area.last_frame() <= MAX_FRAME_NUMBER,
        area.first_frame() == area.base as int / 4096,
        area.last_frame() == (area.base + area.length - 1) / 4096,
{
    reveal(PhysicalArea::first_frame);
    reveal(PhysicalArea::last_frame);
    lemma_frame_number_monotone(area.base as int, area.base + area.length - 1);
    lemma_frame_number_monotone(area.base + area.length - 1, 0x000f_ffff_ffff_ffff);
    assert(0x000f_ffff_ffff_ffffint / 4096 == 0xff_ffff_ffffint);
}

/// The count as a `usize`: the largest `usize` where the count is beyond it.
pub open spec fn saturated(count: nat) -> usize {
    if count <= usize::MAX {
        count as usize
    } else {
        usize::MAX
    }
}

/// The run of `count` frames from `first` on meets the frames `start..=end`.
pub open spec fn run_overlaps(first: int, count: int, start: int, end: int) -> bool {
    first <= end && start <= first + count - 1
}

/// No frame belongs to two of the regions.
pub open spec fn areas_disjoint(areas: Seq<PhysicalArea>) -> bool {
    forall|i: int, j: int|
        0 <= i < areas.len() && 0 <= j < areas.len() && i != j ==> areas[i].last_frame()
            < areas[j].first_frame() || areas[j].last_frame() < areas[i].first_frame()
}

/// A simple allocator that hands out memory linearly and ignores freed
/// memory.
///
/// It keeps the list of usable regions, the frames of the kernel image and
/// of the boot information, which it never hands out, and a cursor: the
/// number of the next frame it will consider.
#[derive(Debug)]
pub struct BumpAllocator {
    next_free_frame: Frame,
    current_area: Option<usize>,
    areas: Vec<PhysicalArea>,
    kernel_start: Frame,
    kernel_end: Frame,
    boot_info_start: Frame,
    boot_info_end: Frame,
}

impl BumpAllocator {
    /// The cursor: every frame handed out so far has a smaller number.
    pub closed spec fn cursor(&self) -> int {
        self.next_free_frame.number as int
    }

    /// The usable regions.
    pub closed spec fn areas(&self) -> Seq<PhysicalArea> {
        self.areas@
    }

    /// The first and the last frame of the kernel image.
    pub closed spec fn kernel_frames(&self) -> (int, int) {
        (self.kernel_start.number as int, self.kernel_end.number as int)
    }

    /// The first and the last frame of the boot information.
    pub closed spec fn boot_info_frames(&self) -> (int, int) {
        (self.boot_info_start.number as int, self.boot_info_end.number as int)
    }

    /// The run of `count` frames from `first` on could be handed out: it
    /// lies within one usable region and meets neither the kernel image nor
    /// the boot information.
    pub open spec fn usable(&self, first: int, count: int) -> bool {
        &&& count > 0
        &&& exists|i: int| 0 <= i < self.areas().len() && #[trigger] self.areas()[i].contains_run(first, count)
        &&& !run_overlaps(first, count, self.kernel_frames().0, self.kernel_frames().1)
        &&& !run_overlaps(first, count, self.boot_info_frames().0, self.boot_info_frames().1)
    }

    /// From the frame `from` on, `n` frames can be handed out one by one:
    /// each time the lowest one that is usable.
    pub open spec fn has_frames_from(&self, from: int, n: nat) -> bool
        decreases n,
    {
        n == 0 || exists|g: int|
            from <= g && #[trigger] self.usable(g, 1) && (forall|h: int| from <= h < g ==> !self.usable(h, 1))
                && self.has_frames_from(g + 1, (n - 1) as nat)
    }

    /// Where `n` frames can be handed out, fewer can.
    pub proof fn lemma_fewer_frames(&self, from: int, n: nat, m: nat)
        requires
            self.has_frames_from(from, n),
            m <= n,
        ensures
            self.has_frames_from(from, m),
        decreases n,
    {
        if m > 0 {
            let g = choose|g: int|
                from <= g && #[trigger] self.usable(g, 1) && (forall|h: int| from <= h < g ==> !self.usable(h, 1))
                    && self.has_frames_from(g + 1, (n - 1) as nat);
            self.lemma_fewer_frames(g + 1, (n - 1) as nat, (m - 1) as nat);
        }
    }

    /// Frames that cannot be handed out do not count: where none of the
    /// frames from `low` up to `high` can, as many frames can be handed out
    /// from `high` on as from `low` on.
    pub proof fn lemma_skip_unusable(&self, low: int, high: int, n: nat)
        requires
            low <= high,
            forall|h: int| low <= h < high ==> !#[trigger] self.usable(h, 1),
            self.has_frames_from(low, n),
        ensures
            self.has_frames_from(high, n),
    {
        if n > 0 {
            let g = choose|g: int|
                low <= g && #[trigger] self.usable(g, 1) && (forall|h: int| low <= h < g ==> !self.usable(h, 1))
                    && self.has_frames_from(g + 1, (n - 1) as nat);
            assert(high <= g);
        }
    }

    /// Which frames can be handed out depends on the regions and on what is
    /// spared, not on the cursor.
    pub proof fn lemma_same_frames(&self, other: BumpAllocator, from: int, n: nat)
        requires
            self.areas() == other.areas(),
            self.kernel_frames() == other.kernel_frames(),
            self.boot_info_frames() == other.boot_info_frames(),
            self.has_frames_from(from, n),
        ensures
            other.has_frames_from(from, n),
        decreases n,
    {
        if n > 0 {
            let g = choose|g: int|
                from <= g && #[trigger] self.usable(g, 1) && (forall|h: int| from <= h < g ==> !self.usable(h, 1))
                    && self.has_frames_from(g + 1, (n - 1) as nat);
            self.lemma_same_frames(other, g + 1, (n - 1) as nat);
            assert(other.usable(g, 1));
            assert forall|h: int| from <= h < g implies !other.usable(h, 1) by {
                assert(!self.usable(h, 1));
            }
        }
    }

    /// The allocator's own invariant.
    pub closed spec fn inv(&self) -> bool {
        &&& forall|i: int| 0 <= i < self.areas@.len() ==> (#[trigger] self.areas@[i]).valid()
        &&& self.next_free_frame.number <= MAX_FRAME_NUMBER + 1
        &&& self.kernel_end.number <= MAX_FRAME_NUMBER
        &&& self.boot_info_end.number <= MAX_FRAME_NUMBER
        &&& match self.current_area {
            Some(i) => i < self.areas@.len() && self.areas@[i as int].first_frame()
                <= self.next_free_frame.number,
            None => forall|j: int|
                0 <= j < self.areas@.len() ==> (#[trigger] self.areas@[j]).last_frame()
                    < self.next_free_frame.number,
        }
    }

    /// An allocator over `memory_areas` that starts at frame 0 and spares the
    /// kernel image and the boot information, each given by the physical
    /// addresses of its first and its last byte.
    pub fn new(
        kernel_start: u64,
        kernel_end: u64,
        boot_info_start: u64,
        boot_info_end: u64,
        memory_areas: Vec<PhysicalArea>,
    ) -> (allocator: Self)
        requires
            forall|i: int| 0 <= i < memory_areas@.len() ==> (#[trigger] memory_areas@[i]).valid(),
            kernel_end < 0x0010_0000_0000_0000,
            boot_info_end < 0x0010_0000_0000_0000,
        ensures
            allocator.inv(),
            allocator.areas() == memory_areas@,
            allocator.kernel_frames() == (kernel_start as int / 4096, kernel_end as int / 4096),
            allocator.boot_info_frames() == (boot_info_start as int / 4096, boot_info_end as int / 4096),
            memory_areas@.len() == 0 ==> allocator.cursor() == 0,
            memory_areas@.len() > 0 ==> exists|i: int|
                0 <= i < memory_areas@.len() && allocator.cursor() == (
                #[trigger] memory_areas@[i]).first_frame(),
            forall|j: int|
                0 <= j < memory_areas@.len() ==> allocator.cursor() <= (
                #[trigger] memory_areas@[j]).first_frame(),
    {
        let mut allocator = BumpAllocator {
            next_free_frame: Frame::containing_address(0),
            current_area: None,
            areas: memory_areas,
            kernel_start: Frame::containing_address(kernel_start),
            kernel_end: Frame::containing_address(kernel_end),
            boot_info_start: Frame::containing_address(boot_info_start),
            boot_info_end: Frame::containing_address(boot_info_end),
        };
        proof {
            assert forall|j: int| 0 <= j < memory_areas@.len() implies Self::is_candidate(
                memory_areas@,
                0,
                j,
            ) by {
                lemma_area_frames(memory_areas@[j]);
            }
        }
        allocator.choose_next_area();
        proof {
            if memory_areas@.len() > 0 {
                assert(Self::is_candidate(memory_areas@, 0, 0));
                let i = allocator.current_area.unwrap() as int;
                lemma_area_frames(memory_areas@[i]);
                assert(allocator.cursor() == memory_areas@[i].first_frame());
            }
        }
        allocator
    }

    /// Region `i` still has a frame at or after `cursor`.
    pub open spec fn is_candidate(areas: Seq<PhysicalArea>, cursor: int, i: int) -> bool {
        0 <= i < areas.len() && areas[i].last_frame() >= cursor
    }

    /// Makes the region that starts lowest, among those that still have a
    /// frame at or after the cursor, the current one, and moves the cursor
    /// up to its first frame.
    fn choose_next_area(&mut self)
        requires
            forall|i: int| 0 <= i < old(self).areas@.len() ==> (#[trigger] old(self).areas@[i]).valid(),
            old(self).next_free_frame.number <= MAX_FRAME_NUMBER + 1,
            old(self).kernel_end.number <= MAX_FRAME_NUMBER,
            old(self).boot_info_end.number <= MAX_FRAME_NUMBER,
        ensures
            final(self).inv(),
            final(self).areas == old(self).areas,
            final(self).kernel_start == old(self).kernel_start,
            final(self).kernel_end == old(self).kernel_end,
            final(self).boot_info_start == old(self).boot_info_start,
            final(self).boot_info_end == old(self).boot_info_end,
            final(self).cursor() >= old(self).cursor(),
            // No region has a frame between the old and the new cursor.
            forall|j: int, g: int|
                0 <= j < old(self).areas@.len() && old(self).cursor() <= g < final(self).cursor()
                    ==> !(#[trigger] old(self).areas@[j].has_frame(g)),
            match final(self).current_area {
                Some(i) => {
                    &&& Self::is_candidate(old(self).areas@, old(self).cursor(), i as int)
                    &&& forall|j: int|
                        Self::is_candidate(old(self).areas@, old(self).cursor(), j) ==> old(self).areas@[i as int].first_frame() <= (#[trigger] old(self).areas@[j]).first_frame()
                    &&& final(self).cursor() == if old(self).cursor() < old(self).areas@[i as int].first_frame() {
                        old(self).areas@[i as int].first_frame()
                    } else {
                        old(self).cursor()
                    }
                },
                None => final(self).cursor() == old(self).cursor() && forall|j: int|
                    0 <= j < old(self).areas@.len() ==> !Self::is_candidate(
                        old(self).areas@,
                        old(self).cursor(),
                        j,
                    ),
            },
    {
        let ghost areas = self.areas@;
        let ghost cursor = self.next_free_frame.number as int;
        let mut best: Option<usize> = None;
        let mut best_start: u64 = 0;
        let mut i: usize = 0;
        while i < self.areas.len()
            invariant
                i <= self.areas@.len(),
                *self == *old(self),
                self.areas@ == areas,
                self.next_free_frame.number == cursor,
                forall|k: int| 0 <= k < areas.len() ==> (#[trigger] areas[k]).valid(),
                match best {
                    Some(b) => b < i && Self::is_candidate(areas, cursor, b as int) && best_start
                        == areas[b as int].first_frame() && forall|j: int|
                        0 <= j < i && Self::is_candidate(areas, cursor, j) ==> best_start <= (
                        #[trigger] areas[j]).first_frame(),
                    None => forall|j: int| 0 <= j < i ==> !Self::is_candidate(areas, cursor, j),
                },
            decreases self.areas@.len() - i,
        {
            let area = self.areas[i];
            if area.last() >= self.next_free_frame.number {
                let start = area.first();
                if best.is_none() || start < best_start {
                    best = Some(i);
                    best_start = start;
                }
            }
            i += 1;
        }
        self.current_area = best;
        match best {
            Some(b) => {
                assert(Self::is_candidate(areas, cursor, b as int));
                proof {
                    lemma_area_frames(areas[b as int]);
                }
                if self.next_free_frame.number < best_start {
                    self.next_free_frame = Frame { number: best_start };
                }
                assert forall|j: int, g: int|
                    0 <= j < areas.len() && cursor <= g < self.cursor() implies !(
                #[trigger] areas[j].has_frame(g)) by {
                    if areas[j].has_frame(g) {
                        assert(Self::is_candidate(areas, cursor, j));
                    }
                }
            },
            None => {
                assert forall|j: int| 0 <= j < areas.len() implies (#[trigger] areas[j]).last_frame()
                    < cursor by {
                    assert(!Self::is_candidate(areas, cursor, j));
                }
            },
        }
    }
}

impl BumpAllocator {
    /// The frame counts as free: it is not part of the kernel image and has
    /// not been reached by the cursor.
    pub open spec fn counts_as_free(&self, frame: int) -> bool {
        !(self.kernel_frames().0 <= frame <= self.kernel_frames().1) && frame >= self.cursor()
    }

    /// How many of the frames `first..first + len` count as free (`free`) or
    /// as used (`!free`).
    pub open spec fn count_in_run(&self, first: int, len: nat, free: bool) -> nat
        decreases len,
    {
        if len == 0 {
            0
        } else {
            self.count_in_run(first, (len - 1) as nat, free) + if self.counts_as_free(
                first + len - 1,
            ) == free {
                1nat
            } else {
                0nat
            }
        }
    }

    /// The count over the frames of the first `n` regions. A frame that
    /// belongs to several regions is counted once for each.
    pub open spec fn count_in_areas(&self, n: nat, free: bool) -> nat
        decreases n,
    {
        if n == 0 {
            0
        } else {
            let area = self.areas()[n - 1];
            self.count_in_areas((n - 1) as nat, free) + self.count_in_run(
                area.first_frame(),
                (area.last_frame() - area.first_frame() + 1) as nat,
                free,
            )
        }
    }

    /// Walks the frames of every region and counts those that are free, or
    /// those that are used. The count stops at the largest `usize`.
    fn count_frames(&self, free: bool) -> (count: usize)
        requires
            self.inv(),
        ensures
            count == saturated(self.count_in_areas(self.areas().len(), free)),
    {
        let mut count: usize = 0;
        let mut i: usize = 0;
        while i < self.areas.len()
            invariant
                self.inv(),
                i <= self.areas@.len(),
                count == if self.count_in_areas(i as nat, free) <= usize::MAX {
                    self.count_in_areas(i as nat, free)
                } else {
                    usize::MAX as nat
                },
            decreases self.areas@.len() - i,
        {
            let area = self.areas[i];
            let first = area.first();
            let last = area.last();
            let ghost before = self.count_in_areas(i as nat, free);
            let mut frame: u64 = first;
            while frame <= last
                invariant
                    self.inv(),
                    first <= frame <= last + 1,
                    last <= MAX_FRAME_NUMBER,
                    count == if before + self.count_in_run(first as int, (frame - first) as nat, free)
                        <= usize::MAX {
                        before + self.count_in_run(first as int, (frame - first) as nat, free)
                    } else {
                        usize::MAX as nat
                    },
                decreases last + 1 - frame,
            {
                let reserved = frame >= self.kernel_start.number && frame <= self.kernel_end.number;
                let is_free = !reserved && frame >= self.next_free_frame.number;
                if is_free == free && count < usize::MAX {
                    count += 1;
                }
                frame += 1;
            }
            i += 1;
        }
        count
    }
}

/// A new allocator over the regions `areas`, no frame of which belongs to
/// two of them, that spares the frames `kernel.0` to `kernel.1` and `boot.0`
/// to `boot.1` can hand out `n` frames one after the other.
pub open spec fn fresh_promises(areas: Seq<PhysicalArea>, kernel: (int, int), boot: (int, int), n: nat) -> bool {
    areas_disjoint(areas) && exists|b: BumpAllocator|
        b.areas() == areas && b.kernel_frames() == kernel && b.boot_info_frames() == boot && #[trigger] b.has_frames_from(
            0,
            n,
        )
}

/// An allocator that was just made promises what a new allocator over its
/// regions can hand out: its cursor stands at the first frame of the lowest
/// region, below which no frame can be handed out.
pub proof fn lemma_fresh_promises(allocator: BumpAllocator, n: nat)
    requires
        fresh_promises(allocator.areas(), allocator.kernel_frames(), allocator.boot_info_frames(), n),
        forall|j: int| 0 <= j < allocator.areas().len() ==> allocator.cursor() <= (#[trigger] allocator.areas()[j]).first_frame(),
    ensures
        allocator.promises(n),
{
    if n > 0 {
        let b = choose|b: BumpAllocator|
            b.areas() == allocator.areas() && b.kernel_frames() == allocator.kernel_frames()
                && b.boot_info_frames() == allocator.boot_info_frames() && #[trigger] b.has_frames_from(0, n);
        b.lemma_same_frames(allocator, 0, n);
        assert forall|h: int| 0 <= h < allocator.cursor() implies !#[trigger] allocator.usable(h, 1) by {
            assert forall|j: int| 0 <= j < allocator.areas().len() implies !(#[trigger] allocator.areas()[j]).contains_run(
                h,
                1,
            ) by {}
        }
        allocator.lemma_skip_unusable(0, allocator.cursor(), n);
    }
}

impl FrameAllocator for BumpAllocator {
    open spec fn wf(&self) -> bool {
        self.inv()
    }

    /// The allocator hands out frames in rising order: what lies at or
    /// after its cursor may still be handed out, what lies before never
    /// again.
    open spec fn available(&self, frame: int) -> bool {
        frame >= self.cursor()
    }

    /// The next run at or after the cursor that lies within one region and
    /// spares the kernel image and the boot information is handed out, and
    /// the cursor moves behind it. Where no frame belongs to two regions the
    /// run is the lowest one that could be handed out, and none is handed
    /// out only where there is none.
    open spec fn served(before: Self, after: Self, count: usize, frame: Option<Frame>) -> bool {
        &&& after.areas() == before.areas()
        &&& after.kernel_frames() == before.kernel_frames()
        &&& after.boot_info_frames() == before.boot_info_frames()
        &&& count == 0 ==> frame.is_none() && after == before
        &&& match frame {
            Some(f) => {
                &&& before.cursor() <= f.number
                &&& before.usable(f.number as int, count as int)
                &&& after.cursor() == f.number + count
                &&& areas_disjoint(before.areas()) ==> forall|g: int|
                    before.cursor() <= g < f.number ==> !#[trigger] before.usable(
                        g,
                        count as int,
                    )
            },
            None => {
                &&& after.cursor() >= before.cursor()
                &&& areas_disjoint(before.areas()) ==> forall|g: int|
                    before.cursor() <= g ==> !#[trigger] before.usable(g, count as int)
            },
        }
    }

    /// The allocator ignores freed memory.
    open spec fn gave_back(before: Self, after: Self, frame: Frame, count: usize) -> bool {
        after == before
    }

    /// The allocator promises frames where no frame belongs to two of its
    /// regions: as many as it can hand out from its cursor on.
    open spec fn promises(&self, n: nat) -> bool {
        n == 0 || (areas_disjoint(self.areas()) && self.has_frames_from(self.cursor(), n))
    }

    proof fn lemma_promises(&self, n: nat, m: nat) {
        if self.promises(n) && 0 < m <= n {
            self.lemma_fewer_frames(self.cursor(), n, m);
        }
    }

    open spec fn exclusive(&self) -> bool {
        true
    }

    /// The number of frames, over all regions, that belong to the kernel
    /// image or lie before the cursor; the largest `usize` where there are
    /// more.
    open spec fn spec_used_frames(&self) -> usize {
        saturated(self.count_in_areas(self.areas().len(), false))
    }

    /// The number of frames, over all regions, that do not belong to the
    /// kernel image and lie at or after the cursor; the largest `usize`
    /// where there are more.
    open spec fn spec_free_frames(&self) -> usize {
        saturated(self.count_in_areas(self.areas().len(), true))
    }

    fn set_noncore(&mut self, noncore: bool)
        ensures
            *final(self) == *old(self),
    {
    }

    fn used_frames(&self) -> (count: usize) {
        self.count_frames(false)
    }

    fn free_frames(&self) -> (count: usize) {
        self.count_frames(true)
    }

    /// Hands out the next run of `count` frames at or after the cursor that
    /// lies within one region and spares the kernel image and the boot
    /// information, and moves the cursor behind it.
    ///
    /// What is left of a region that cannot hold the run is passed over.
    /// Where no frame belongs to two regions, the run handed out is the
    /// lowest one that could be, and `None` says that there is none.
    fn allocate_frames(&mut self, count: usize) -> (frame: Option<Frame>)
        ensures
            final(self).areas() == old(self).areas(),
            final(self).kernel_frames() == old(self).kernel_frames(),
            final(self).boot_info_frames() == old(self).boot_info_frames(),
            count == 0 ==> frame.is_none() && *final(self) == *old(self),
            match frame {
                Some(f) => {
                    &&& old(self).cursor() <= f.number
                    &&& old(self).usable(f.number as int, count as int)
                    &&& final(self).cursor() == f.number + count
                    &&& areas_disjoint(old(self).areas()) ==> forall|g: int|
                        old(self).cursor() <= g < f.number ==> !#[trigger] old(self).usable(
                            g,
                            count as int,
                        )
                },
                None => {
                    &&& final(self).cursor() >= old(self).cursor()
                    &&& areas_disjoint(old(self).areas()) ==> forall|g: int|
                        old(self).cursor() <= g ==> !#[trigger] old(self).usable(g, count as int)
                },
            },
    {
        if count == 0 {
            return None;
        }
        let ghost start = self.cursor();
        let ghost before = *self;
        loop
            invariant
                self.inv(),
                count > 0,
                before == *old(self),
                self.areas == before.areas,
                self.kernel_start == before.kernel_start,
                self.kernel_end == before.kernel_end,
                self.boot_info_start == before.boot_info_start,
                self.boot_info_end == before.boot_info_end,
                before.cursor() == start,
                start <= self.cursor(),
                areas_disjoint(before.areas()) ==> forall|g: int|
                    start <= g < self.cursor() ==> !#[trigger] before.usable(g, count as int),
            decreases
                    MAX_FRAME_NUMBER + 1 - self.cursor(),
                    (match self.current_area {
                        Some(i) => if self.areas@[i as int].last_frame() < self.cursor() {
                            2int
                        } else {
                            1int
                        },
                        None => 0int,
                    }),
        {
            let i = match self.current_area {
                Some(i) => i,
                None => {
                    proof {
                        assert forall|g: int| self.cursor() <= g implies !#[trigger] before.usable(
                            g,
                            count as int,
                        ) by {
                            assert forall|j: int| 0 <= j < before.areas().len() implies !(
                            #[trigger] before.areas()[j]).contains_run(g, count as int) by {}
                        }
                    }
                    return None;
                },
            };
            let area = self.areas[i];
            let last = area.last();
            let n = self.next_free_frame.number;
            let ghost cursor = self.cursor();
            if n > last || (count as u64) - 1 > last - n {
                if n <= last {
                    self.next_free_frame = Frame { number: last + 1 };
                }
                let ghost middle = self.cursor();
                self.choose_next_area();
                proof {
                    if areas_disjoint(before.areas()) {
                        assert forall|g: int| cursor <= g < self.cursor() implies !#[trigger] before.usable(
                            g,
                            count as int,
                        ) by {
                            assert forall|j: int| 0 <= j < before.areas().len() implies !(
                            #[trigger] before.areas()[j]).contains_run(g, count as int) by {
                                let other = before.areas()[j];
                                if other.contains_run(g, count as int) {
                                    assert(other.has_frame(g));
                                    if g < middle {
                                        assert(area.has_frame(g));
                                        assert(j != i);
                                    }
                                }
                            }
                        }
                    }
                }
            } else {
                let end = n + ((count as u64) - 1);
                if n <= self.kernel_end.number && end >= self.kernel_start.number {
                    self.next_free_frame = Frame { number: self.kernel_end.number + 1 };
                } else if n <= self.boot_info_end.number && end >= self.boot_info_start.number {
                    self.next_free_frame = Frame { number: self.boot_info_end.number + 1 };
                } else {
                    self.next_free_frame = Frame { number: end + 1 };
                    proof {
                        assert(before.areas()[i as int].contains_run(n as int, count as int));
                        if count == 1 {
                            assert(before.usable(n as int, 1));
                            assert forall|k: nat| before.promises(k + 1) implies #[trigger] self.promises(k) by {
                                if k > 0 {
                                    let g = choose|g: int|
                                        start <= g && #[trigger] before.usable(g, 1) && (forall|h: int|
                                            start <= h < g ==> !before.usable(h, 1)) && before.has_frames_from(
                                            g + 1,
                                            k,
                                        );
                                    assert(!(n < g));
                                    assert(!(g < n)) by {
                                        if g < n {
                                            assert(!before.usable(g, count as int));
                                        }
                                    }
                                    before.lemma_same_frames(*self, n + 1, k);
                                }
                            }
                        }
                    }
                    return Some(Frame { number: n });
                }
            }
        }
    }

    /// The allocator ignores freed memory: nothing changes.
    fn deallocate_frames(&mut self, frame: Frame, count: usize)
        ensures
            *final(self) == *old(self),
    {
    }
}

} // verus!
