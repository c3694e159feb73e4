use rucore::memory::bump_allocator::{BumpAllocator, PhysicalArea};
use rucore::memory::frame::{Frame, FrameAllocator};
use rucore::memory::recycle_allocator::RecycleAllocator;
use rucore::memory::{allocate_frames, deallocate_frames, free_frames, used_frames, KernelFrameAllocator};

fn area(base: u64, length: u64) -> PhysicalArea {
    PhysicalArea::new(base, length).unwrap()
}

/// Regions: frames 0..=15 and frames 32..=47. Kernel: frames 2..=3. Boot
/// information: frame 5.
fn bump() -> BumpAllocator {
    BumpAllocator::new(
        0x2000,
        0x3fff,
        0x5000,
        0x5fff,
        vec![area(0, 0x10000), area(0x20000, 0x10000)],
    )
}

#[test]
fn frame_of_address() {
    assert_eq!(Frame::containing_address(0).number, 0);
    assert_eq!(Frame::containing_address(0xfff).number, 0);
    assert_eq!(Frame::containing_address(0x1000).number, 1);
    assert_eq!(Frame::containing_address(0xb8000).number, 0xb8);
    assert_eq!(Frame::containing_address(0x1234).start_address().get(), 0x1000);
    let frame = Frame::containing_address(0x5000);
    assert_eq!(frame.clone(), frame);
}

#[test]
fn frame_range_is_walked_in_order() {
    let mut iter = Frame::range_inclusive(Frame { number: 3 }, Frame { number: 5 });
    assert_eq!(iter.next(), Some(Frame { number: 3 }));
    assert_eq!(iter.next(), Some(Frame { number: 4 }));
    assert_eq!(iter.next(), Some(Frame { number: 5 }));
    assert_eq!(iter.next(), None);
    assert_eq!(iter.next(), None);
    let mut empty = Frame::range_inclusive(Frame { number: 5 }, Frame { number: 3 });
    assert_eq!(empty.next(), None);
}

#[test]
fn physical_area_is_checked() {
    assert!(PhysicalArea::new(0, 0).is_none());
    assert!(PhysicalArea::new(0x000f_ffff_ffff_f000, 0x1000).is_some());
    assert!(PhysicalArea::new(0x000f_ffff_ffff_f000, 0x1001).is_none());
    assert!(PhysicalArea::new(u64::MAX, 1).is_none());
    let a = area(0x1000, 0x2345);
    assert_eq!(a.start_address(), 0x1000);
    assert_eq!(a.size(), 0x2345);
}

#[test]
fn bump_skips_kernel_and_boot_information() {
    let mut allocator = bump();
    let numbers: Vec<u64> = (0..6).map(|_| allocator.allocate_frames(1).unwrap().number).collect();
    assert_eq!(numbers, vec![0, 1, 4, 6, 7, 8]);
}

#[test]
fn bump_goes_on_to_the_next_region() {
    let mut allocator = bump();
    // 16 frames of the first region, less the kernel's two and the one of
    // the boot information.
    for _ in 0..13 {
        assert!(allocator.allocate_frames(1).unwrap().number < 16);
    }
    assert_eq!(allocator.allocate_frames(1).unwrap().number, 32);
    for expected in 33..48 {
        assert_eq!(allocator.allocate_frames(1).unwrap().number, expected);
    }
    assert_eq!(allocator.allocate_frames(1), None);
    assert_eq!(allocator.allocate_frames(1), None);
}

#[test]
fn bump_hands_out_runs() {
    let mut allocator = bump();
    // The run 0..=3 meets the kernel; the run 4..=7 the boot information.
    assert_eq!(allocator.allocate_frames(4).unwrap().number, 6);
    assert_eq!(allocator.allocate_frames(4).unwrap().number, 10);
    // Two frames are left in the first region: the run comes from the next.
    assert_eq!(allocator.allocate_frames(4).unwrap().number, 32);
    assert_eq!(allocator.allocate_frames(13), None);
    assert_eq!(allocator.allocate_frames(0), None);
}

#[test]
fn bump_picks_the_lowest_region_first() {
    let mut allocator =
        BumpAllocator::new(0, 0, 0, 0, vec![area(0x20000, 0x2000), area(0x8000, 0x1000)]);
    // Frame 0 belongs to kernel and boot information but to no region.
    assert_eq!(allocator.allocate_frames(1).unwrap().number, 8);
    assert_eq!(allocator.allocate_frames(1).unwrap().number, 32);
    assert_eq!(allocator.allocate_frames(1).unwrap().number, 33);
    assert_eq!(allocator.allocate_frames(1), None);
}

#[test]
fn bump_without_regions_is_empty() {
    let mut allocator = BumpAllocator::new(0, 0, 0, 0, Vec::new());
    assert_eq!(allocator.allocate_frames(1), None);
    assert_eq!(allocator.free_frames(), 0);
    assert_eq!(allocator.used_frames(), 0);
}

#[test]
fn bump_counts_frames() {
    let mut allocator = bump();
    // 32 frames in all; the kernel's two count as used from the start.
    assert_eq!(allocator.free_frames(), 30);
    assert_eq!(allocator.used_frames(), 2);
    allocator.allocate_frames(1).unwrap();
    assert_eq!(allocator.free_frames(), 29);
    assert_eq!(allocator.used_frames(), 3);
    // Frames 1 and 4: the cursor passes the kernel.
    allocator.allocate_frames(1).unwrap();
    allocator.allocate_frames(1).unwrap();
    assert_eq!(allocator.free_frames(), 27);
    assert_eq!(allocator.used_frames(), 5);
    // The bump allocator ignores what is given back.
    allocator.deallocate_frames(Frame { number: 0 }, 1);
    assert_eq!(allocator.free_frames(), 27);
    assert_eq!(allocator.allocate_frames(1).unwrap().number, 6);
}

#[test]
fn frames_are_handed_out_once() {
    let mut allocator = RecycleAllocator::new(bump());
    let mut live: Vec<u64> = Vec::new();
    let mut step: u64 = 1;
    for round in 0..200 {
        step = step.wrapping_mul(6364136223846793005).wrapping_add(1442695040888963407);
        if round % 3 == 2 && !live.is_empty() {
            let index = (step >> 33) as usize % live.len();
            let number = live.swap_remove(index);
            allocator.deallocate_frames(Frame { number }, 1);
        } else if let Some(frame) = allocator.allocate_frames(1) {
            assert!(!live.contains(&frame.number), "frame {} handed out twice", frame.number);
            assert!(frame.number != 2 && frame.number != 3 && frame.number != 5);
            live.push(frame.number);
        }
    }
    assert!(!live.is_empty());
}

#[test]
fn recycled_frame_comes_back_first() {
    let mut allocator = RecycleAllocator::new(bump());
    let first = allocator.allocate_frames(1).unwrap();
    let middle = allocator.allocate_frames(1).unwrap();
    let last = allocator.allocate_frames(1).unwrap();
    assert_eq!((first.number, middle.number, last.number), (0, 1, 4));
    allocator.deallocate_frames(middle.clone(), 1);
    assert_eq!(allocator.free_count(), 1);
    assert_eq!(allocator.allocate_frames(1), Some(middle));
    assert_eq!(allocator.free_count(), 0);
    // With the free list empty, new frames are carved again.
    assert_eq!(allocator.allocate_frames(1).unwrap().number, 6);
}

#[test]
fn recycle_is_a_stack() {
    let mut allocator = RecycleAllocator::new(bump());
    for _ in 0..4 {
        allocator.allocate_frames(1).unwrap();
    }
    allocator.deallocate_frames(Frame { number: 0 }, 1);
    allocator.deallocate_frames(Frame { number: 4 }, 1);
    allocator.deallocate_frames(Frame { number: 1 }, 1);
    assert_eq!(allocator.allocate_frames(1).unwrap().number, 1);
    assert_eq!(allocator.allocate_frames(1).unwrap().number, 4);
    assert_eq!(allocator.allocate_frames(1).unwrap().number, 0);
    assert_eq!(allocator.allocate_frames(1).unwrap().number, 7);
}

#[test]
fn recycle_hands_runs_on_to_the_wrapped_allocator() {
    let mut allocator = RecycleAllocator::new(bump());
    let run = allocator.allocate_frames(2).unwrap();
    assert_eq!(run.number, 0);
    // A run that is given back goes on the free list frame by frame.
    allocator.deallocate_frames(run, 2);
    assert_eq!(allocator.free_count(), 2);
    // A request for a run does not look at the free list.
    assert_eq!(allocator.allocate_frames(2).unwrap().number, 6);
    assert_eq!(allocator.free_count(), 2);
    // A request for one frame takes the frame given back last.
    assert_eq!(allocator.allocate_frames(1).unwrap().number, 1);
    assert_eq!(allocator.allocate_frames(1).unwrap().number, 0);
    assert_eq!(allocator.allocate_frames(0), None);
}

#[test]
fn recycle_counts_the_free_list() {
    let mut allocator = RecycleAllocator::new(bump());
    let frame = allocator.allocate_frames(1).unwrap();
    assert_eq!(allocator.free_frames(), 29);
    assert_eq!(allocator.used_frames(), 3);
    allocator.deallocate_frames(frame, 1);
    assert_eq!(allocator.free_frames(), 30);
    assert_eq!(allocator.used_frames(), 2);
    allocator.set_noncore(true);
    assert_eq!(allocator.free_frames(), 30);
}

#[test]
fn recycle_passes_exhaustion_on() {
    let mut allocator = RecycleAllocator::new(BumpAllocator::new(0, 0, 0, 0, vec![area(0x1000, 0x1000)]));
    assert_eq!(allocator.allocate_frames(1).unwrap().number, 1);
    assert_eq!(allocator.allocate_frames(1), None);
    allocator.deallocate_frames(Frame { number: 1 }, 1);
    assert_eq!(allocator.allocate_frames(1).unwrap().number, 1);
    assert_eq!(allocator.allocate_frames(1), None);
}

#[test]
fn kernel_allocator_functions() {
    let mut allocator: Option<KernelFrameAllocator> = Some(RecycleAllocator::new(bump()));
    assert_eq!(free_frames(&allocator), 30);
    assert_eq!(used_frames(&allocator), 2);
    let a = allocate_frames(&mut allocator, 1).unwrap();
    let b = allocate_frames(&mut allocator, 1).unwrap();
    let c = allocate_frames(&mut allocator, 1).unwrap();
    assert_eq!((a.number, b.number, c.number), (0, 1, 4));
    deallocate_frames(&mut allocator, b.clone(), 1);
    assert_eq!(allocate_frames(&mut allocator, 1), Some(b));
    assert_eq!(free_frames(&allocator), 27);
}
