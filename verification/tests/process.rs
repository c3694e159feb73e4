use rucore::interrupts::trapframe::TrapFrame;
use rucore::memory::bump_allocator::{BumpAllocator, PhysicalArea};
use rucore::memory::frame::Frame;
use rucore::memory::memory_set::ProgramSegment;
use rucore::memory::recycle_allocator::RecycleAllocator;
use rucore::memory::stack_allocator::{Stack, StackAllocator};
use rucore::memory::{alloc_stacks, KernelFrameAllocator};
use rucore::paging::entry::{EntryFlags, NO_EXECUTE, PRESENT, USER_ACCESSIBLE, WRITABLE};
use rucore::paging::mapper::Mapper;
use rucore::paging::table::{MapError, Table};
use rucore::paging::{ActivePageTable, Page};
use rucore::mylib::once::Once;
use rucore::process::process::{Process, Status};
use rucore::process::processor::Processor;
use rucore::process::procs::{hash32, pid_hashfn};
use rucore::process::{fork, schedule};

fn stacks() -> StackAllocator {
    // 64 pages from the page 0x100 on.
    StackAllocator::new(Page::range_inclusive(Page { number: 0x100 }, Page { number: 0x13f }))
}

fn active() -> ActivePageTable {
    let mut p4 = Table::new(4);
    p4.set_recursive_entry(Frame { number: 1 });
    ActivePageTable::new(p4, Frame { number: 1 })
}

fn process(pid: usize, status: Status, rsp: u64, stacks: &mut StackAllocator) -> Process {
    let mut process = Process::new("test", 0x1000 * pid as u64, stacks);
    process.pid = pid;
    process.status = status;
    process.rsp = rsp;
    process
}

fn zero_two_five(current: usize) -> Processor {
    let mut stacks = StackAllocator::new(Page::range_inclusive(Page { number: 0x100 }, Page { number: 0x1ff }));
    let status = |pid: usize| if pid == current { Status::Running } else { Status::Ready };
    Processor {
        active_table: active(),
        procs: vec![
            process(0, status(0), 0x1000, &mut stacks),
            process(2, status(2), 0x2000, &mut stacks),
            process(5, status(5), 0x5000, &mut stacks),
        ],
        current_pid: current,
    }
}

#[test]
fn trap_frame_of_a_kernel_thread() {
    let tf = TrapFrame::new_kernel_thread(0xffff_ff00_0010_0000, 0xffff_fe80_0020_0000);
    let expected = TrapFrame {
        rip: 0xffff_ff00_0010_0000,
        rsp: 0xffff_fe80_0020_0000,
        cs: 0x10,
        ss: 0x20,
        rflags: 0x282,
        ..TrapFrame::default()
    };
    assert_eq!(tf, expected);
    assert!(!tf.is_user());
}

#[test]
fn trap_frame_of_a_user_thread() {
    let tf = TrapFrame::new_user_thread(0x40_0000, 0x180_0010_0000);
    let expected = TrapFrame {
        rip: 0x40_0000,
        rsp: 0x180_0010_0000,
        cs: 0x1b,
        ss: 0x2b,
        rflags: 0x3282,
        ..TrapFrame::default()
    };
    assert_eq!(tf, expected);
    assert!(tf.is_user());
    assert_eq!(TrapFrame::default().rax, 0);
    assert_eq!(TrapFrame::default().rflags, 0);
}

#[test]
fn stacks_are_carved_with_a_guard_page() {
    let mut stacks = stacks();
    assert!(stacks.alloc_stacks(0).is_none());
    let first = stacks.alloc_stacks(7).unwrap();
    assert_eq!(first.bottom(), 0x101000);
    assert_eq!(first.top(), 0x108000);
    let second = stacks.alloc_stacks(1).unwrap();
    assert_eq!(second.bottom(), 0x109000);
    assert_eq!(second.top(), 0x10a000);
    // 54 pages are left: a stack of 54 pages and its guard do not fit.
    assert_eq!(stacks.pages_left(), 54);
    assert!(stacks.alloc_stacks(54).is_none());
    assert_eq!(stacks.pages_left(), 54);
    let last = stacks.alloc_stacks(53).unwrap();
    assert_eq!(last.top(), 0x140000);
    assert_eq!(stacks.pages_left(), 0);
    assert!(stacks.alloc_stacks(1).is_none());
    let mut global = Some(self::stacks());
    assert_eq!(alloc_stacks(&mut global, 7).unwrap().top(), 0x108000);
}

#[test]
fn trap_frame_is_pushed_at_the_top() {
    let mut stack = Stack::new(0x8000, 0x1000);
    assert_eq!(stack.saved(), None);
    let tf = TrapFrame::new_kernel_thread(1, 2);
    assert_eq!(stack.push_at_top(tf), 0x8000 - 176);
    assert_eq!(stack.saved(), Some(tf));
    assert_eq!(stack.top(), 0x8000);
}

#[test]
fn kernel_thread() {
    let mut stacks = stacks();
    let process = Process::new("idle", 0xffff_ff00_0000_1234, &mut stacks);
    assert_eq!(process.pid, 0);
    assert_eq!(process.name, "idle");
    assert_eq!(process.status, Status::Ready);
    assert!(!process.is_user);
    assert!(process.memory_set.is_none());
    assert!(process.page_table.is_none());
    assert_eq!(process.kstack.top(), 0x108000);
    assert_eq!(process.rsp, 0x108000 - 176);
    assert_eq!(
        process.kstack.saved(),
        Some(TrapFrame::new_kernel_thread(0xffff_ff00_0000_1234, 0x108000))
    );
}

#[test]
fn init_thread() {
    let mut stacks = stacks();
    let process = Process::new_init(&mut stacks, &mut Once::new());
    assert_eq!(process.name, "init");
    assert_eq!(process.status, Status::Running);
    assert_eq!(process.rsp, 0);
    assert_eq!(process.kstack.saved(), None);
    assert_eq!(process.kstack.top(), 0x108000);
}

#[test]
fn pids_fill_the_first_gap() {
    let mut stacks = StackAllocator::new(Page::range_inclusive(Page { number: 0x100 }, Page { number: 0x2ff }));
    let mut processor = Processor::new(active());
    assert_eq!(processor.alloc_pid(), 0);
    processor.add(Process::new_init(&mut stacks, &mut Once::new()));
    processor.add(Process::new("idle", 1, &mut stacks));
    processor.add(Process::new("third", 2, &mut stacks));
    let pids: Vec<usize> = processor.procs.iter().map(|p| p.pid).collect();
    assert_eq!(pids, vec![0, 1, 2]);
    assert_eq!(processor.alloc_pid(), 3);
    assert_eq!(processor.current_pid(), 0);
    assert_eq!(processor.get(1).unwrap().name, "idle");
    assert!(processor.get(3).is_none());

    let mut gaps = zero_two_five(2);
    assert_eq!(gaps.alloc_pid(), 1);
    gaps.add(Process::new("a", 0, &mut stacks));
    assert_eq!(gaps.alloc_pid(), 3);
    gaps.add(Process::new("b", 0, &mut stacks));
    gaps.add(Process::new("c", 0, &mut stacks));
    gaps.add(Process::new("d", 0, &mut stacks));
    let pids: Vec<usize> = gaps.procs.iter().map(|p| p.pid).collect();
    assert_eq!(pids, vec![0, 1, 2, 3, 4, 5, 6]);
    assert_eq!(gaps.get(1).unwrap().name, "a");
    assert_eq!(gaps.get(6).unwrap().name, "d");
}

#[test]
fn round_robin() {
    let mut processor = zero_two_five(2);
    assert_eq!(processor.find_next(), 5);
    let mut rsp = 0xaaaa;
    processor.schedule(&mut rsp);
    assert_eq!(processor.current_pid, 5);
    assert_eq!(rsp, 0x5000);
    assert_eq!(processor.get(2).unwrap().status, Status::Ready);
    assert_eq!(processor.get(2).unwrap().rsp, 0xaaaa);
    assert_eq!(processor.get(5).unwrap().status, Status::Running);
    assert_eq!(processor.get(0).unwrap().status, Status::Ready);
    assert_eq!(processor.get(0).unwrap().rsp, 0x1000);

    // From the highest number on it starts over.
    assert_eq!(processor.find_next(), 0);
    let mut rsp = 0xbbbb;
    schedule(&mut processor, &mut rsp);
    assert_eq!(processor.current_pid, 0);
    assert_eq!(rsp, 0x1000);
    assert_eq!(processor.get(5).unwrap().rsp, 0xbbbb);
    assert_eq!(processor.get(5).unwrap().status, Status::Ready);

    let mut rsp = 0xcccc;
    processor.schedule(&mut rsp);
    assert_eq!(processor.current_pid, 2);
    // The stack pointer with which process 2 was switched away from.
    assert_eq!(rsp, 0xaaaa);
}

#[test]
fn single_process_is_not_switched() {
    let mut stacks = stacks();
    let mut processor = Processor::new(active());
    processor.add(Process::new_init(&mut stacks, &mut Once::new()));
    let mut rsp = 0x1234;
    processor.schedule(&mut rsp);
    assert_eq!(rsp, 0x1234);
    assert_eq!(processor.current_pid, 0);
    assert_eq!(processor.get(0).unwrap().status, Status::Running);
    assert_eq!(processor.get(0).unwrap().rsp, 0);
}

#[test]
fn fork_runs_on_its_own_stack() {
    let mut stacks = stacks();
    let mut processor = Processor::new(active());
    processor.add(Process::new_init(&mut stacks, &mut Once::new()));
    let parent_top = processor.get(0).unwrap().kstack.top();
    let tf = TrapFrame { rip: 0x40_1234, rsp: 0x7fff_0000, rax: 7, cs: 0x1b, ..TrapFrame::default() };
    fork(&mut processor, &tf, &mut stacks);
    assert_eq!(processor.current_pid, 0);
    let child = processor.get(1).unwrap();
    assert_eq!(child.name, "fork");
    assert_eq!(child.status, Status::Ready);
    assert!(child.is_user);
    assert_ne!(child.kstack.top(), parent_top);
    assert_eq!(child.kstack.top(), 0x110000);
    let saved = child.kstack.saved().unwrap();
    assert_eq!(saved.rsp, child.kstack.top());
    assert_eq!(saved.rip, 0x40_1234);
    assert_eq!(saved, TrapFrame { rsp: 0x110000, ..tf });
    assert_eq!(child.rsp, 0x110000 - 176);
    // The fork is picked by the scheduler and resumed from its frame.
    let mut rsp = 0xdddd;
    processor.schedule(&mut rsp);
    assert_eq!(processor.current_pid, 1);
    assert_eq!(rsp, 0x110000 - 176);
    processor.fork(&tf, &mut stacks);
    assert_eq!(processor.get(2).unwrap().kstack.top(), 0x118000);
}

fn segment(virtual_addr: u64, mem_size: u64, writable: bool, executable: bool) -> ProgramSegment {
    ProgramSegment { virtual_addr, mem_size, offset: 0x1000, file_size: mem_size, writable, executable }
}

fn frames() -> KernelFrameAllocator {
    RecycleAllocator::new(BumpAllocator::new(
        0,
        0,
        0,
        0,
        vec![PhysicalArea::new(0x10000, 0x1000000).unwrap()],
    ))
}

#[test]
fn user_process() {
    let mut stacks = stacks();
    let mut frames = frames();
    let mut act = active();
    let segments = vec![segment(0x40_0000, 0x1800, false, true), segment(0x60_0000, 0x800, true, false)];
    let process = Process::new_user(&segments, 0x40_0120, &mut act, &mut frames, &mut stacks).unwrap();
    assert_eq!(process.name, "user");
    assert!(process.is_user);
    assert_eq!(process.status, Status::Ready);
    assert_eq!(
        process.kstack.saved(),
        Some(TrapFrame::new_user_thread(0x40_0120, 0x180_0010_0000))
    );
    assert_eq!(process.rsp, process.kstack.top() - 176);
    let set = process.memory_set.unwrap();
    assert_eq!(set.len(), 3);
    assert_eq!(set.find_area(0x40_17ff).unwrap().flags.bits(), PRESENT | USER_ACCESSIBLE);
    assert_eq!(
        set.find_area(0x60_0000).unwrap().flags.bits(),
        PRESENT | USER_ACCESSIBLE | WRITABLE | NO_EXECUTE
    );
    assert_eq!(set.find_area(0x180_0000_0000).unwrap().name, "user_stack");
    assert_eq!(set.find_area(0x180_0010_0000), None);
    let mapper = Mapper::new(process.page_table.unwrap().table);
    assert!(mapper.translate_page(Page::containing_address(0x40_0000)).is_some());
    assert!(mapper.translate_page(Page::containing_address(0x40_1000)).is_some());
    assert!(mapper.translate_page(Page::containing_address(0x40_2000)).is_none());
    assert!(mapper.translate_page(Page::containing_address(0x60_0000)).is_some());
    assert!(mapper.translate_page(Page::containing_address(0x180_0000_0000)).is_some());
    assert!(mapper.translate_page(Page::containing_address(0x180_000f_f000)).is_some());
    assert!(mapper.translate_page(Page::containing_address(0x180_0010_0000)).is_none());
    assert_eq!(
        mapper.flags_of(Page::containing_address(0x180_0000_0000)),
        EntryFlags::from_bits(PRESENT | WRITABLE | NO_EXECUTE | USER_ACCESSIBLE)
    );
}

#[test]
fn user_process_with_overlapping_segments() {
    let mut stacks = stacks();
    let mut frames = frames();
    let mut act = active();
    let segments = vec![segment(0x40_0000, 0x1800, false, true), segment(0x40_1900, 0x800, true, false)];
    assert!(matches!(
        Process::new_user(&segments, 0x40_0120, &mut act, &mut frames, &mut stacks),
        Err(MapError::RangeInUse)
    ));
    let on_the_stack = vec![segment(0x180_0000_0800, 0x10, true, false)];
    assert!(matches!(
        Process::new_user(&on_the_stack, 0, &mut act, &mut frames, &mut stacks),
        Err(MapError::RangeInUse)
    ));
    // No stack was taken.
    assert_eq!(stacks.alloc_stacks(7).unwrap().top(), 0x108000);
}

#[test]
fn pid_hash() {
    assert_eq!(hash32(0, 10), 0);
    assert_eq!(hash32(1, 10), 0x9e370001u32 >> 22);
    assert_eq!(hash32(1, 32), 0x9e370001);
    assert_eq!(hash32(2, 10), (0x9e370001u32.wrapping_mul(2)) >> 22);
    assert_eq!(pid_hashfn(1), 632);
    assert_eq!(pid_hashfn(4096), (0x9e370001u32.wrapping_mul(4096)) >> 22);
    for pid in 0..5000 {
        assert!(pid_hashfn(pid) < 1024);
    }
}
