//! Processes and the round-robin scheduler.

use vstd::prelude::*;

pub mod process;
pub mod processor;
pub mod procs;

pub use self::process::{Pid, Process, Status};
pub use self::processor::Processor;
use crate::interrupts::trapframe::TrapFrame;
use crate::memory::stack_allocator::StackAllocator;

verus! {

/// Called from the timer interrupt: picks the process that runs next.
///
/// `rsp` holds the stack pointer at which the state of the interrupted
/// process was saved; on return it holds the stack pointer from which the
/// state of the chosen process is restored.
pub fn schedule(processor: &mut Processor, rsp: &mut u64)
    requires
        old(processor).wf(),
        old(processor).pids().len() > 0,
    ensures
        final(processor).wf(),
        final(processor).current_pid == processor::next_pid(
            old(processor).pids(),
            old(processor).current_pid,
        ),
        final(processor).pids() == old(processor).pids(),
        processor::switched(*old(processor), *final(processor), *old(rsp), *final(rsp)),
        old(processor).one_running() ==> final(processor).one_running(),
        old(processor).procs@.len() == 1 ==> final(processor).procs@ == old(processor).procs@ && *final(rsp)
            == *old(rsp) && final(processor).current_pid == old(processor).current_pid,
{
    processor.schedule(rsp);
}

/// Fork the current process.
pub fn fork(processor: &mut Processor, tf: &TrapFrame, stacks: &mut StackAllocator)
    requires
        old(processor).wf(),
        old(processor).pids().len() > 0,
        old(processor).pids().len() < usize::MAX,
        old(stacks).wf(),
        old(stacks).remaining() > process::KERNEL_STACK_PAGES,
    ensures
        final(processor).wf(),
        final(stacks).wf(),
        processor::forked(*old(processor), *final(processor), *tf, *old(stacks), *final(stacks)),
        old(processor).one_running() ==> final(processor).one_running(),
{
    processor.fork(tf, stacks);
}

} // verus!
