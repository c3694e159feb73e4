//! Traps and interrupts: the saved state and the decisions of the handlers.

pub mod irq;
pub mod trapframe;

pub use self::trapframe::TrapFrame;
