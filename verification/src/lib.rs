//! The memory-management and scheduling core of a small 64-bit kernel:
//! physical frame allocation, the four-level page table, address-space
//! descriptions, trap frames and the round-robin process table.
//!
//! Everything in this crate works on plain values. Privileged instructions
//! (loading the paging root, invalidating the TLB, port I/O) are not issued
//! here; the operations that need them hand back a list of [`paging::HardwareOp`]
//! for the embedding kernel to carry out.

pub mod acpi;
pub mod ata;
pub mod consts;
pub mod gdt;
pub mod interrupts;
pub mod memory;
pub mod metadevs;
pub mod mylib;
pub mod paging;
pub mod process;
pub mod ps2;
pub mod serial;
pub mod vfs;
