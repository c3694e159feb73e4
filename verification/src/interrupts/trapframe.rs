//! The record of the processor's state that is saved at every trap.

use vstd::prelude::*;
use crate::gdt::{KCODE_SELECTOR, KDATA_SELECTOR, UCODE_SELECTOR, UDATA_SELECTOR};

verus! {

/// The flags with which a kernel thread starts: interrupts enabled.
pub const KERNEL_RFLAGS: u64 = 0x282;

/// The flags with which a user thread starts: interrupts enabled, and the
/// I/O privilege level set to 3 so that user code may use the ports.
pub const USER_RFLAGS: u64 = 0x3282;

/// The registers that are saved when a trap is taken, in the order in which
/// they lie on the stack.
#[derive(Debug, Clone, Copy, PartialEq, Eq, Structural)]
pub struct TrapFrame {
    pub r15: u64,
    pub r14: u64,
    pub r13: u64,
    pub r12: u64,
    pub rbp: u64,
    pub rbx: u64,
    pub r11: u64,
    pub r10: u64,
    pub r9: u64,
    pub r8: u64,
    pub rsi: u64,
    pub rdi: u64,
    pub rdx: u64,
    pub rcx: u64,
    pub rax: u64,
    pub trap_num: u64,
    pub error_code: u64,
    pub rip: u64,
    pub cs: u64,
    pub rflags: u64,
    pub rsp: u64,
    pub ss: u64,
}

/// The trap frame with every register zero.
pub open spec fn zeroed_frame() -> TrapFrame {
    TrapFrame {
        r15: 0,
        r14: 0,
        r13: 0,
        r12: 0,
        rbp: 0,
        rbx: 0,
        r11: 0,
        r10: 0,
        r9: 0,
        r8: 0,
        rsi: 0,
        rdi: 0,
        rdx: 0,
        rcx: 0,
        rax: 0,
        trap_num: 0,
        error_code: 0,
        rip: 0,
        cs: 0,
        rflags: 0,
        rsp: 0,
        ss: 0,
    }
}

/// The frame from which a kernel thread starts at `entry` on the stack below
/// `rsp`.
pub open spec fn kernel_thread_frame(entry: u64, rsp: u64) -> TrapFrame {
    TrapFrame {
        cs: KCODE_SELECTOR as u64,
        rip: entry,
        ss: KDATA_SELECTOR as u64,
        rsp: rsp,
        rflags: KERNEL_RFLAGS,
        ..zeroed_frame()
    }
}

/// The frame from which a user thread starts at `entry` on the stack below
/// `rsp`.
pub open spec fn user_thread_frame(entry: u64, rsp: u64) -> TrapFrame {
    TrapFrame {
        cs: UCODE_SELECTOR as u64,
        rip: entry,
        ss: UDATA_SELECTOR as u64,
        rsp: rsp,
        rflags: USER_RFLAGS,
        ..zeroed_frame()
    }
}

impl Default for TrapFrame {
    fn default() -> (frame: TrapFrame)
        ensures
            frame == zeroed_frame(),
    {
        TrapFrame {
            r15: 0,
            r14: 0,
            r13: 0,
            r12: 0,
            rbp: 0,
            rbx: 0,
            r11: 0,
            r10: 0,
            r9: 0,
            r8: 0,
            rsi: 0,
            rdi: 0,
            rdx: 0,
            rcx: 0,
            rax: 0,
            trap_num: 0,
            error_code: 0,
            rip: 0,
            cs: 0,
            rflags: 0,
            rsp: 0,
            ss: 0,
        }
    }
}

impl TrapFrame {
    /// The frame from which a new kernel thread starts: it runs from
    /// `entry` on the stack below `rsp`, in ring 0 and with interrupts
    /// enabled. Every other register is zero.
    pub fn new_kernel_thread(entry: u64, rsp: u64) -> (frame: TrapFrame)
        ensures
            frame == kernel_thread_frame(entry, rsp),
    {
        let mut tf = TrapFrame::default();
        tf.cs = KCODE_SELECTOR as u64;
        tf.rip = entry;
        tf.ss = KDATA_SELECTOR as u64;
        tf.rsp = rsp;
        tf.rflags = KERNEL_RFLAGS;
        tf
    }

    /// The frame from which a new user thread starts: it runs from
    /// `entry_addr` on the stack below `rsp`, in ring 3, with interrupts
    /// enabled and with leave to use the ports. Every other register is
    /// zero.
    pub fn new_user_thread(entry_addr: u64, rsp: u64) -> (frame: TrapFrame)
        ensures
            frame == user_thread_frame(entry_addr, rsp),
    {
        let mut tf = TrapFrame::default();
        tf.cs = UCODE_SELECTOR as u64;
        tf.rip = entry_addr;
        tf.ss = UDATA_SELECTOR as u64;
        tf.rsp = rsp;
        tf.rflags = USER_RFLAGS;
        tf
    }

    /// Whether the frame was saved while the processor ran in ring 3.
    pub fn is_user(&self) -> (user: bool)
        ensures
            user == (self.cs & 0x3 == 3),
    {
        self.cs & 0x3 == 3
    }
}

/// A kernel thread starts in ring 0 and a user thread in ring 3: the two
/// lowest bits of the code selector say so. A user thread has both bits of
/// the I/O privilege level set, a kernel thread neither; both have
/// interrupts enabled.
pub proof fn lemma_thread_privileges(entry: u64, rsp: u64)
    ensures
        (KCODE_SELECTOR as u64) & 0x3 == 0,
        (KDATA_SELECTOR as u64) & 0x3 == 0,
        (UCODE_SELECTOR as u64) & 0x3 == 3,
        (UDATA_SELECTOR as u64) & 0x3 == 3,
        KERNEL_RFLAGS & 0x200 == 0x200,
        USER_RFLAGS & 0x200 == 0x200,
        KERNEL_RFLAGS & 0x3000 == 0,
        USER_RFLAGS & 0x3000 == 0x3000,
        USER_RFLAGS == KERNEL_RFLAGS | 0x3000,
{
    assert(0x10u64 & 0x3 == 0 && 0x20u64 & 0x3 == 0 && 0x1bu64 & 0x3 == 3 && 0x2bu64 & 0x3 == 3
        && 0x282u64 & 0x200 == 0x200 && 0x3282u64 & 0x200 == 0x200 && 0x282u64 & 0x3000 == 0
        && 0x3282u64 & 0x3000 == 0x3000 && 0x3282u64 == 0x282u64 | 0x3000) by (bit_vector);
}

} // verus!
