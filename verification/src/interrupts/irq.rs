//! What the kernel does about a trap: which handler a trap number calls
//! for, and what the handlers do to the saved state.

use vstd::prelude::*;
use crate::consts::{
    IRQ_COM1, IRQ_COM2, IRQ_KBD, IRQ_MOUSE, IRQ_TIMER, T_BRKPT, T_DBLFLT, T_GPFLT, T_IRQ0,
    T_PGFLT, T_SWITCH_TOK, T_SWITCH_TOU,
};
use crate::gdt::{KCODE_SELECTOR, KDATA_SELECTOR, UCODE_SELECTOR, UDATA_SELECTOR};
use crate::interrupts::trapframe::TrapFrame;
use crate::memory::stack_allocator::TRAP_FRAME_SIZE;

verus! {

/// The highest trap number that stands for an interrupt request.
pub const T_IRQ_LAST: u8 = 64;

/// The bits of the flags register that hold the I/O privilege level.
pub const RFLAGS_IOPL: u64 = 0x3000;

/// The number of timer interrupts after which the timer reports.
pub const TICKS_PER_REPORT: usize = 100;

/// A device that asks for an interrupt.
#[derive(Debug, Clone, Copy, PartialEq, Eq, Structural)]
pub enum IrqSource {
    Timer,
    Keyboard,
    Mouse,
    Com1,
    Com2,
}

/// What a trap calls for.
#[derive(Debug, Clone, Copy, PartialEq, Eq, Structural)]
pub enum Trap {
    /// A breakpoint was hit: execution goes on.
    Breakpoint,
    /// A fault within a fault handler: the processor is halted.
    DoubleFault,
    /// A page fault, with the error code that the processor gave.
    PageFault(u64),
    /// A general protection fault: the processor is halted.
    GeneralProtectionFault,
    /// An interrupt request of a device, which is acknowledged once it was
    /// served, with the number of the request.
    Irq(IrqSource, u8),
    /// The request to go on in ring 0.
    ToKernel,
    /// The request to go on in ring 3.
    ToUser,
}

/// The device that the interrupt request `irq` comes from.
pub open spec fn irq_source(irq: u8) -> Option<IrqSource> {
    if irq == IRQ_TIMER {
        Some(IrqSource::Timer)
    } else if irq == IRQ_KBD {
        Some(IrqSource::Keyboard)
    } else if irq == IRQ_MOUSE {
        Some(IrqSource::Mouse)
    } else if irq == IRQ_COM1 {
        Some(IrqSource::Com1)
    } else if irq == IRQ_COM2 {
        Some(IrqSource::Com2)
    } else {
        None
    }
}

/// What the trap with the number `trap_num` calls for; `None` for a trap
/// that the kernel has no handler for.
pub open spec fn classify(trap_num: u64, error_code: u64) -> Option<Trap> {
    let number = (trap_num % 256) as u8;
    if number == T_BRKPT {
        Some(Trap::Breakpoint)
    } else if number == T_DBLFLT {
        Some(Trap::DoubleFault)
    } else if number == T_PGFLT {
        Some(Trap::PageFault(error_code))
    } else if number == T_GPFLT {
        Some(Trap::GeneralProtectionFault)
    } else if T_IRQ0 <= number <= T_IRQ_LAST {
        match irq_source((number - T_IRQ0) as u8) {
            Some(source) => Some(Trap::Irq(source, (number - T_IRQ0) as u8)),
            None => None,
        }
    } else if number == T_SWITCH_TOK {
        Some(Trap::ToKernel)
    } else if number == T_SWITCH_TOU {
        Some(Trap::ToUser)
    } else {
        None
    }
}

/// The saved state after the request to go on in ring 3 was served: the
/// selectors are those of user mode, and the I/O privilege level is 3, so
/// that the ports can be used in user mode.
pub open spec fn as_user(tf: TrapFrame) -> TrapFrame {
    TrapFrame {
        cs: UCODE_SELECTOR as u64,
        ss: UDATA_SELECTOR as u64,
        rflags: tf.rflags | RFLAGS_IOPL,
        ..tf
    }
}

/// The saved state after the request to go on in ring 0 was served: the
/// selectors are those of the kernel.
pub open spec fn as_kernel(tf: TrapFrame) -> TrapFrame {
    TrapFrame { cs: KCODE_SELECTOR as u64, ss: KDATA_SELECTOR as u64, ..tf }
}

/// Serves the request to go on in ring 3.
pub fn to_user(tf: &mut TrapFrame)
    ensures
        *final(tf) == as_user(*old(tf)),
{
    tf.cs = UCODE_SELECTOR as u64;
    tf.ss = UDATA_SELECTOR as u64;
    tf.rflags = tf.rflags | RFLAGS_IOPL;
}

/// Serves the request to go on in ring 0.
pub fn to_kernel(tf: &mut TrapFrame)
    ensures
        *final(tf) == as_kernel(*old(tf)),
{
    tf.cs = KCODE_SELECTOR as u64;
    tf.ss = KDATA_SELECTOR as u64;
}

/// Whether the kernel has a handler for the trap with the number
/// `trap_num`.
pub fn is_handled(trap_num: u64) -> (handled: bool)
    ensures
        handled == classify(trap_num, 0).is_some(),
        forall|error_code: u64| handled == (#[trigger] classify(trap_num, error_code)).is_some(),
{
    let number = (trap_num % 256) as u8;
    if number == T_BRKPT || number == T_DBLFLT || number == T_PGFLT || number == T_GPFLT || number
        == T_SWITCH_TOK || number == T_SWITCH_TOU {
        true
    } else if T_IRQ0 <= number && number <= T_IRQ_LAST {
        let irq = number - T_IRQ0;
        irq == IRQ_TIMER || irq == IRQ_KBD || irq == IRQ_MOUSE || irq == IRQ_COM1 || irq == IRQ_COM2
    } else {
        false
    }
}

/// Finds out what the trap calls for whose state was saved in `tf`, and
/// serves it as far as that is done on the saved state: the requests to go
/// on in another ring change the selectors. Everything else is left to the
/// caller.
pub fn rust_trap(tf: &mut TrapFrame) -> (trap: Trap)
    requires
        classify(old(tf).trap_num, old(tf).error_code).is_some(),
    ensures
        Some(trap) == classify(old(tf).trap_num, old(tf).error_code),
        *final(tf) == match trap {
            Trap::ToUser => as_user(*old(tf)),
            Trap::ToKernel => as_kernel(*old(tf)),
            _ => *old(tf),
        },
{
    let number = (tf.trap_num % 256) as u8;
    if number == T_BRKPT {
        Trap::Breakpoint
    } else if number == T_DBLFLT {
        Trap::DoubleFault
    } else if number == T_PGFLT {
        Trap::PageFault(tf.error_code)
    } else if number == T_GPFLT {
        Trap::GeneralProtectionFault
    } else if T_IRQ0 <= number && number <= T_IRQ_LAST {
        let irq = number - T_IRQ0;
        let source = if irq == IRQ_TIMER {
            IrqSource::Timer
        } else if irq == IRQ_KBD {
            IrqSource::Keyboard
        } else if irq == IRQ_MOUSE {
            IrqSource::Mouse
        } else if irq == IRQ_COM1 {
            IrqSource::Com1
        } else {
            IrqSource::Com2
        };
        Trap::Irq(source, irq)
    } else if number == T_SWITCH_TOK {
        to_kernel(tf);
        Trap::ToKernel
    } else {
        to_user(tf);
        Trap::ToUser
    }
}

/// The stack pointer that the processor is to load when it next enters
/// ring 0 from the state `tf`, which lies at the address `address`: the
/// address behind the saved state where that state is one of ring 3, and
/// `None` where it is one of ring 0, from which no stack is switched.
pub fn set_return_rsp(tf: &TrapFrame, address: u64) -> (rsp: Option<u64>)
    requires
        address + TRAP_FRAME_SIZE <= u64::MAX,
    ensures
        rsp == if tf.cs & 0x3 == 3 {
            Some((address + TRAP_FRAME_SIZE) as u64)
        } else {
            None
        },
{
    if tf.cs & 0x3 == 3 {
        Some(address + TRAP_FRAME_SIZE)
    } else {
        None
    }
}

/// Counts the interrupts of the timer.
pub struct Timer {
    pub tick: usize,
}

impl Timer {
    /// A timer that has counted nothing yet.
    pub fn new() -> (timer: Timer)
        ensures
            timer.tick == 0,
    {
        Timer { tick: 0 }
    }

    /// Counts one interrupt and says whether it is one to report: every
    /// hundredth is. The count starts over where it would not fit.
    pub fn timer(&mut self) -> (report: bool)
        ensures
            final(self).tick == if old(self).tick == usize::MAX {
                0
            } else {
                old(self).tick + 1
            },
            report == (final(self).tick % TICKS_PER_REPORT == 0),
    {
        self.tick = if self.tick == usize::MAX {
            0
        } else {
            self.tick + 1
        };
        self.tick % TICKS_PER_REPORT == 0
    }
}

/// The interrupt controller that an interrupt request is enabled at.
#[derive(Debug, Clone, Copy, PartialEq, Eq, Structural)]
pub enum IrqController {
    /// The I/O APIC: the request is routed to processor 0.
    IoApic { irq: u8, cpu: u8 },
    /// The legacy pair of controllers.
    Pic { irq: u8 },
}

/// Says at which controller the interrupt request `irq` is to be enabled:
/// at the I/O APIC where the kernel uses it, else at the legacy controller.
pub fn enable_irq(irq: u8, use_apic: bool) -> (controller: IrqController)
    ensures
        controller == if use_apic {
            (IrqController::IoApic { irq, cpu: 0 })
        } else {
            (IrqController::Pic { irq })
        },
{
    if use_apic {
        IrqController::IoApic { irq, cpu: 0 }
    } else {
        IrqController::Pic { irq }
    }
}

/// A thread that asks to go on in ring 3 gets there with the right to use
/// the ports, and one that asks to go on in ring 0 gets there: the two
/// lowest bits of the code selector are the ring.
pub proof fn lemma_ring_switches(tf: TrapFrame)
    ensures
        as_user(tf).cs & 0x3 == 3,
        as_user(tf).rflags & RFLAGS_IOPL == RFLAGS_IOPL,
        as_kernel(tf).cs & 0x3 == 0,
        as_kernel(tf).rflags == tf.rflags,
        as_user(as_kernel(tf)) == as_user(tf),
        as_kernel(as_user(tf)).cs == as_kernel(tf).cs,
{
    let f = tf.rflags;
    assert(0x1bu64 & 0x3 == 3 && 0x10u64 & 0x3 == 0 && (f | 0x3000) & 0x3000 == 0x3000)
        by (bit_vector);
}

} // verus!
