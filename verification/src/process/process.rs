//! The process control block.

use vstd::prelude::*;
use crate::mylib::once::Once;
use crate::consts::{USER_STACK_OFFSET, USER_STACK_SIZE};
use crate::interrupts::trapframe::{kernel_thread_frame, user_thread_frame, TrapFrame};
use crate::memory::frame::FrameAllocator;
use crate::memory::memory_set::{areas_of, pairwise_disjoint, MemoryArea, MemorySet, ProgramSegment};
use crate::memory::stack_allocator::{Stack, StackAllocator, TRAP_FRAME_SIZE};
use crate::memory::{is_address_space_of, make_page_table, LAPIC_PAGE, TEMPORARY_PAGE};
use crate::paging::entry::{EntryFlags, NO_EXECUTE, USER_ACCESSIBLE, WRITABLE};
use crate::paging::table::MapError;
use crate::paging::{ActivePageTable, InactivePageTable, Page};

verus! {

/// The number of a process.
pub type Pid = usize;

/// The number of pages of a kernel stack.
pub const KERNEL_STACK_PAGES: usize = 7;

/// What a process is doing.
#[derive(Debug, Clone, Copy, PartialEq, Eq, Structural)]
pub enum Status {
    Ready,
    Running,
    Sleeping(usize),
    Exited,
}

/// A process: its number and name, its kernel stack, its address space
/// where it has one of its own, its status, and the stack pointer at which
/// its state was saved while it does not run.
pub struct Process {
    pub pid: Pid,
    pub name: &'static str,
    pub kstack: Stack,
    pub memory_set: Option<MemorySet>,
    pub page_table: Option<InactivePageTable>,
    pub status: Status,
    pub rsp: u64,
    pub is_user: bool,
}

impl Process {
    /// A process that is ready to run from the trap frame at the top of its
    /// kernel stack.
    pub open spec fn is_runnable_from(&self, frame: TrapFrame) -> bool {
        &&& self.status == Status::Ready
        &&& self.kstack.spec_saved() == Some(frame)
        &&& self.rsp == self.kstack.spec_top() - TRAP_FRAME_SIZE
    }

    /// Make a new kernel thread that runs from `entry` on a kernel stack of
    /// its own.
    pub fn new(name: &'static str, entry: u64, stacks: &mut StackAllocator) -> (process: Process)
        requires
            old(stacks).wf(),
            old(stacks).remaining() > KERNEL_STACK_PAGES,
        ensures
            final(stacks).wf(),
            final(stacks).next_page() == old(stacks).next_page() + 1 + KERNEL_STACK_PAGES,
            final(stacks).last_page() == old(stacks).last_page(),
            process.pid == 0,
            process.name == name,
            process.memory_set.is_none(),
            process.page_table.is_none(),
            !process.is_user,
            process.kstack.spec_bottom() == (old(stacks).next_page() + 1) * 4096,
            process.kstack.spec_top() == (old(stacks).next_page() + 1 + KERNEL_STACK_PAGES) * 4096,
            process.is_runnable_from(kernel_thread_frame(entry, process.kstack.spec_top())),
    {
        let mut kstack = stacks.alloc_stacks(KERNEL_STACK_PAGES).unwrap();
        let tf = TrapFrame::new_kernel_thread(entry, kstack.top());
        let rsp = kstack.push_at_top(tf);
        Process {
            pid: 0,
            name,
            kstack,
            memory_set: None,
            page_table: None,
            status: Status::Ready,
            rsp,
            is_user: false,
        }
    }

    /// Make the first kernel thread `initproc`: the thread that is running
    /// while the kernel starts. Its stack pointer is saved when it is first
    /// switched away from. There is one such thread: the call is made
    /// once, which `once` records.
    pub fn new_init(stacks: &mut StackAllocator, once: &mut Once) -> (process: Process)
        requires
            old(stacks).wf(),
            old(stacks).remaining() > KERNEL_STACK_PAGES,
            !old(once).called(),
        ensures
            final(once).called(),
            final(stacks).wf(),
            final(stacks).next_page() == old(stacks).next_page() + 1 + KERNEL_STACK_PAGES,
            final(stacks).last_page() == old(stacks).last_page(),
            process.pid == 0,
            process.name@ == "init"@,
            process.memory_set.is_none(),
            process.page_table.is_none(),
            !process.is_user,
            process.status == Status::Running,
            process.rsp == 0,
            process.kstack.spec_bottom() == (old(stacks).next_page() + 1) * 4096,
            process.kstack.spec_top() == (old(stacks).next_page() + 1 + KERNEL_STACK_PAGES) * 4096,
            process.kstack.spec_saved().is_none(),
    {
        once.call();
        let kstack = stacks.alloc_stacks(KERNEL_STACK_PAGES).unwrap();
        Process {
            pid: 0,
            name: "init",
            kstack: kstack,
            memory_set: None,
            page_table: None,
            status: Status::Running,
            rsp: 0,
            is_user: false,
        }
    }

    /// The area of the stack of a user program.
    pub open spec fn user_stack_area() -> MemoryArea {
        MemoryArea {
            start_addr: USER_STACK_OFFSET,
            end_addr: (USER_STACK_OFFSET + USER_STACK_SIZE) as u64,
            phys_start_addr: None,
            flags: EntryFlags { bits: WRITABLE | NO_EXECUTE | USER_ACCESSIBLE },
            name: "user_stack",
        }
    }

    /// The areas of the address space of a user program with the given
    /// segments: those of the segments, and the stack.
    pub open spec fn user_areas(segments: Seq<ProgramSegment>) -> Seq<MemoryArea> {
        areas_of(segments, segments.len() as int).push(Self::user_stack_area())
    }

    /// Make a new user thread for the program with the given segments,
    /// which starts at `entry_addr`.
    ///
    /// The address space of the program is described by the areas of its
    /// segments and by an area for its stack, and its page tables are built
    /// while `act` is loaded. The thread starts in user mode at `entry_addr`
    /// with its stack pointer at the top of the stack area. The contents of
    /// the segments are not copied: that is left to the caller, who can
    /// load the new page tables to do it.
    ///
    /// The call fails with `RangeInUse` where areas of the program touch a
    /// common page, and with `OutOfMemory` where the allocator runs out of
    /// frames while the page tables are built.
    pub fn new_user<A: FrameAllocator>(
        segments: &Vec<ProgramSegment>,
        entry_addr: u64,
        act: &mut ActivePageTable,
        allocator: &mut A,
        stacks: &mut StackAllocator,
    ) -> (result: Result<Process, MapError>)
        requires
            forall|i: int| 0 <= i < segments@.len() ==> (#[trigger] segments@[i]).fits(),
            forall|i: int|
                0 <= i < segments@.len() ==> (#[trigger] segments@[i]).area().mappable()
                    && !segments@[i].area().maps_page(LAPIC_PAGE as int),
            old(act).wf(),
            old(act).mapper.lookup(Page { number: TEMPORARY_PAGE }).is_none(),
            old(allocator).wf(),
            old(stacks).wf(),
            old(stacks).remaining() > KERNEL_STACK_PAGES,
        ensures
            final(act).wf(),
            final(act).p4_frame == old(act).p4_frame,
            final(allocator).wf(),
            final(stacks).wf(),
            forall|g: int| #[trigger] final(allocator).available(g) ==> old(allocator).available(g),
            forall|q: Page|
                q.valid() ==> #[trigger] final(act).mapper.lookup(q) == old(act).mapper.lookup(q),
            result is Err ==> *final(stacks) == *old(stacks),
            !pairwise_disjoint(Self::user_areas(segments@)) ==> result == Err::<Process, MapError>(
                MapError::RangeInUse,
            ),
            pairwise_disjoint(Self::user_areas(segments@)) ==> result is Ok || result == Err::<
                Process,
                MapError,
            >(MapError::OutOfMemory),
            // The call succeeds where the areas keep apart and the allocator
            // promises the frames that suffice: seven for the tables of the
            // temporary page, the top-level table and the tables of the
            // interrupt controller, and four for every page of the areas.
            pairwise_disjoint(Self::user_areas(segments@)) && old(allocator).promises(
                7 + crate::memory::memory_set::frames_for(Self::user_areas(segments@)),
            ) ==> result is Ok,
            result matches Ok(process) ==> {
                &&& process.pid == 0
                &&& process.is_user
                &&& process.memory_set matches Some(set) && set@ == Self::user_areas(segments@)
                    && set.wf()
                &&& process.page_table matches Some(table) && is_address_space_of(
                    table,
                    process.memory_set.unwrap(),
                    old(act).mapper.spec_p4(),
                )
                &&& process.kstack.spec_bottom() == (old(stacks).next_page() + 1) * 4096
                &&& process.kstack.spec_top() == (old(stacks).next_page() + 1 + KERNEL_STACK_PAGES)
                    * 4096
                &&& process.is_runnable_from(
                    user_thread_frame(entry_addr, (USER_STACK_OFFSET + USER_STACK_SIZE) as u64),
                )
                &&& final(stacks).next_page() == old(stacks).next_page() + 1 + KERNEL_STACK_PAGES
            },
    {
        let ghost program = areas_of(segments@, segments@.len() as int);
        let ghost all = Self::user_areas(segments@);
        // Make page table
        let mut memory_set = match MemorySet::from_segments(segments) {
            Ok(set) => set,
            Err(e) => {
                proof {
                    let i = choose|i: int, j: int|
                        #![trigger program[i], program[j]]
                        0 <= i < program.len() && 0 <= j < program.len() && i != j
                            && program[i].overlaps(&program[j]);
                    assert(all[i.0] == program[i.0] && all[i.1] == program[i.1]);
                }
                return Err(e);
            },
        };
        proof {
            assert((WRITABLE | NO_EXECUTE | USER_ACCESSIBLE) & !crate::paging::entry::ALL_FLAGS == 0)
                by (bit_vector);
        }
        let stack_area = MemoryArea::new(
            USER_STACK_OFFSET,
            USER_STACK_OFFSET + USER_STACK_SIZE,
            EntryFlags { bits: WRITABLE | NO_EXECUTE | USER_ACCESSIBLE },
            "user_stack",
        );
        match memory_set.push(stack_area) {
            Ok(()) => {},
            Err(e) => {
                proof {
                    let k = choose|k: int|
                        0 <= k < program.len() && stack_area.overlaps(&#[trigger] program[k]);
                    assert(all[k] == program[k]);
                    assert(all[program.len() as int] == stack_area);
                    assert(all[program.len() as int].overlaps(&all[k]));
                }
                return Err(e);
            },
        }
        proof {
            assert(memory_set@ == all);
            assert forall|i: int| 0 <= i < all.len() implies (#[trigger] all[i]).mappable() && !all[i].maps_page(
                LAPIC_PAGE as int,
            ) by {
                if i < program.len() {
                    assert(all[i] == segments@[i].area());
                }
            }
        }
        let page_table = match make_page_table(&memory_set, act, allocator) {
            Ok(table) => table,
            Err(e) => {
                return Err(e);
            },
        };
        // Allocate kernel stack and push trap frame
        let mut kstack = stacks.alloc_stacks(KERNEL_STACK_PAGES).unwrap();
        let tf = TrapFrame::new_user_thread(entry_addr, USER_STACK_OFFSET + USER_STACK_SIZE);
        let rsp = kstack.push_at_top(tf);
        Ok(
            Process {
                pid: 0,
                name: "user",
                kstack,
                memory_set: Some(memory_set),
                page_table: Some(page_table),
                status: Status::Ready,
                rsp,
                is_user: true,
            },
        )
    }

    /// The trap frame from which a fork of a process that was interrupted
    /// with the state `parent` starts on a stack with the top `stack_top`:
    /// every register as in `parent`, but the stack pointer at the top of
    /// the new stack.
    pub open spec fn forked_frame(parent: TrapFrame, stack_top: u64) -> TrapFrame {
        TrapFrame { rsp: stack_top, ..parent }
    }

    /// Fork: a new process that goes on from the state `stf` on a kernel
    /// stack of its own.
    pub fn fork(&self, stf: &TrapFrame, stacks: &mut StackAllocator) -> (process: Process)
        requires
            old(stacks).wf(),
            old(stacks).remaining() > KERNEL_STACK_PAGES,
        ensures
            final(stacks).wf(),
            final(stacks).next_page() == old(stacks).next_page() + 1 + KERNEL_STACK_PAGES,
            final(stacks).last_page() == old(stacks).last_page(),
            process.pid == 0,
            process.memory_set.is_none(),
            process.page_table.is_none(),
            process.is_user,
            process.kstack.spec_bottom() == (old(stacks).next_page() + 1) * 4096,
            process.kstack.spec_top() == (old(stacks).next_page() + 1 + KERNEL_STACK_PAGES) * 4096,
            process.is_runnable_from(Self::forked_frame(*stf, process.kstack.spec_top())),
    {
        let mut kstack = stacks.alloc_stacks(KERNEL_STACK_PAGES).unwrap();
        let mut tf = *stf;
        tf.rsp = kstack.top();
        let rsp = kstack.push_at_top(tf);
        Process {
            pid: 0,
            name: "fork",
            kstack,
            memory_set: None,
            page_table: None,
            status: Status::Ready,
            rsp,
            is_user: true,
        }
    }
}

/// A fork is a process of its own that can run: the stack pointer of its
/// saved state is the top of its own stack, and its instruction pointer,
/// like every other register, is that of its parent at the fork.
pub proof fn lemma_fork_runs_on_its_own_stack(parent: TrapFrame, stack_top: u64)
    ensures
        Process::forked_frame(parent, stack_top).rsp == stack_top,
        Process::forked_frame(parent, stack_top).rip == parent.rip,
        Process::forked_frame(parent, stack_top) == (TrapFrame { rsp: stack_top, ..parent }),
{
}

} // verus!
