//! The fixed layout of the 64-bit address space.
//!
//! The address space is partitioned into 512 GiB granules, one per entry of
//! the top-level page table. The lower half belongs to user space, the top
//! entry is the recursive mapping and the one below it holds the kernel.

use vstd::prelude::*;

verus! {

pub const MAX_CPU_NUM: usize = 8;

/// The size of the region covered by a single top-level entry.
pub const PML4_SIZE: u64 = 0x0000_0080_0000_0000;

/// The bits of an address that select the top-level entry.
pub const PML4_MASK: u64 = 0x0000_ff80_0000_0000;

/// Offset of recursive paging.
pub const RECURSIVE_PAGE_OFFSET: u64 = 0xffff_ff80_0000_0000;

pub const RECURSIVE_PAGE_PML4: usize = 511;

/// Offset of kernel.
pub const KERNEL_OFFSET: u64 = 0xffff_ff00_0000_0000;

pub const KERNEL_PML4: usize = 510;

pub const KERNEL_SIZE: u64 = 0x0000_0080_0000_0000;

/// Offset to kernel heap.
pub const KERNEL_HEAP_OFFSET: u64 = 0xffff_fe80_0000_0000;

pub const KERNEL_HEAP_PML4: usize = 509;

/// Size of kernel heap (1 MiB).
pub const KERNEL_HEAP_SIZE: u64 = 0x10_0000;

/// Offset to kernel percpu variables.
pub const KERNEL_PERCPU_OFFSET: u64 = 0xC000_0000;

/// Size of kernel percpu variables (64 KiB).
pub const KERNEL_PERCPU_SIZE: u64 = 0x1_0000;

/// Offset to user image.
pub const USER_OFFSET: u64 = 0;

pub const USER_PML4: usize = 0;

/// Offset to user TCB.
pub const USER_TCB_OFFSET: u64 = 0xB000_0000;

/// Offset to user arguments.
pub const USER_ARG_OFFSET: u64 = 0x0000_0040_0000_0000;

/// Offset to user heap.
pub const USER_HEAP_OFFSET: u64 = 0x0000_0080_0000_0000;

pub const USER_HEAP_PML4: usize = 1;

/// Offset to user grants.
pub const USER_GRANT_OFFSET: u64 = 0x0000_0100_0000_0000;

pub const USER_GRANT_PML4: usize = 2;

/// Offset to user stack.
pub const USER_STACK_OFFSET: u64 = 0x0000_0180_0000_0000;

pub const USER_STACK_PML4: usize = 3;

/// Size of user stack (1 MiB).
pub const USER_STACK_SIZE: u64 = 0x10_0000;

/// Offset to user sigstack.
pub const USER_SIGSTACK_OFFSET: u64 = 0x0000_0200_0000_0000;

pub const USER_SIGSTACK_PML4: usize = 4;

/// Size of user sigstack (256 KiB).
pub const USER_SIGSTACK_SIZE: u64 = 0x4_0000;

/// Offset to user TLS.
pub const USER_TLS_OFFSET: u64 = 0x0000_0280_0000_0000;

pub const USER_TLS_PML4: usize = 5;

/// Offset to user temporary image (used when cloning).
pub const USER_TMP_OFFSET: u64 = 0x0000_0300_0000_0000;

pub const USER_TMP_PML4: usize = 6;

/// Offset to user temporary heap (used when cloning).
pub const USER_TMP_HEAP_OFFSET: u64 = 0x0000_0380_0000_0000;

pub const USER_TMP_HEAP_PML4: usize = 7;

/// Offset to user temporary page for grants.
pub const USER_TMP_GRANT_OFFSET: u64 = 0x0000_0400_0000_0000;

pub const USER_TMP_GRANT_PML4: usize = 8;

/// Offset to user temporary stack (used when cloning).
pub const USER_TMP_STACK_OFFSET: u64 = 0x0000_0480_0000_0000;

pub const USER_TMP_STACK_PML4: usize = 9;

/// Offset to user temporary sigstack (used when cloning).
pub const USER_TMP_SIGSTACK_OFFSET: u64 = 0x0000_0500_0000_0000;

pub const USER_TMP_SIGSTACK_PML4: usize = 10;

/// Offset to user temporary tls (used when cloning).
pub const USER_TMP_TLS_OFFSET: u64 = 0x0000_0580_0000_0000;

pub const USER_TMP_TLS_PML4: usize = 11;

/// Offset for usage in other temporary pages.
pub const USER_TMP_MISC_OFFSET: u64 = 0x0000_0600_0000_0000;

pub const USER_TMP_MISC_PML4: usize = 12;

/// The index of the top-level entry that covers `offset`.
pub open spec fn pml4_index_of(offset: u64) -> int {
    ((offset & PML4_MASK) / PML4_SIZE) as int
}

/// Every window starts on a granule boundary, and the `*_PML4` constants
/// name the top-level entry that covers it. The recursive mapping, the
/// kernel and the kernel heap occupy the three highest entries.
pub proof fn lemma_layout_is_partitioned_by_granules()
    ensures
        pml4_index_of(RECURSIVE_PAGE_OFFSET) == RECURSIVE_PAGE_PML4,
        pml4_index_of(KERNEL_OFFSET) == KERNEL_PML4,
        pml4_index_of(KERNEL_HEAP_OFFSET) == KERNEL_HEAP_PML4,
        pml4_index_of(USER_OFFSET) == USER_PML4,
        pml4_index_of(USER_HEAP_OFFSET) == USER_HEAP_PML4,
        pml4_index_of(USER_GRANT_OFFSET) == USER_GRANT_PML4,
        pml4_index_of(USER_STACK_OFFSET) == USER_STACK_PML4,
        pml4_index_of(USER_SIGSTACK_OFFSET) == USER_SIGSTACK_PML4,
        pml4_index_of(USER_TLS_OFFSET) == USER_TLS_PML4,
        pml4_index_of(USER_TMP_OFFSET) == USER_TMP_PML4,
        pml4_index_of(USER_TMP_HEAP_OFFSET) == USER_TMP_HEAP_PML4,
        pml4_index_of(USER_TMP_GRANT_OFFSET) == USER_TMP_GRANT_PML4,
        pml4_index_of(USER_TMP_STACK_OFFSET) == USER_TMP_STACK_PML4,
        pml4_index_of(USER_TMP_SIGSTACK_OFFSET) == USER_TMP_SIGSTACK_PML4,
        pml4_index_of(USER_TMP_TLS_OFFSET) == USER_TMP_TLS_PML4,
        pml4_index_of(USER_TMP_MISC_OFFSET) == USER_TMP_MISC_PML4,
        RECURSIVE_PAGE_OFFSET == KERNEL_OFFSET + PML4_SIZE,
        KERNEL_OFFSET == KERNEL_HEAP_OFFSET + PML4_SIZE,
        RECURSIVE_PAGE_OFFSET + PML4_SIZE == 0x1_0000_0000_0000_0000,
{
    assert(
        (0xffff_ff80_0000_0000u64 & 0x0000_ff80_0000_0000u64) / 0x0000_0080_0000_0000u64 == 511
        && (0xffff_ff00_0000_0000u64 & 0x0000_ff80_0000_0000u64) / 0x0000_0080_0000_0000u64 == 510
        && (0xffff_fe80_0000_0000u64 & 0x0000_ff80_0000_0000u64) / 0x0000_0080_0000_0000u64 == 509
        && (0u64 & 0x0000_ff80_0000_0000u64) / 0x0000_0080_0000_0000u64 == 0
        && (0x0000_0080_0000_0000u64 & 0x0000_ff80_0000_0000u64) / 0x0000_0080_0000_0000u64 == 1
        && (0x0000_0100_0000_0000u64 & 0x0000_ff80_0000_0000u64) / 0x0000_0080_0000_0000u64 == 2
        && (0x0000_0180_0000_0000u64 & 0x0000_ff80_0000_0000u64) / 0x0000_0080_0000_0000u64 == 3
        && (0x0000_0200_0000_0000u64 & 0x0000_ff80_0000_0000u64) / 0x0000_0080_0000_0000u64 == 4
        && (0x0000_0280_0000_0000u64 & 0x0000_ff80_0000_0000u64) / 0x0000_0080_0000_0000u64 == 5
        && (0x0000_0300_0000_0000u64 & 0x0000_ff80_0000_0000u64) / 0x0000_0080_0000_0000u64 == 6
        && (0x0000_0380_0000_0000u64 & 0x0000_ff80_0000_0000u64) / 0x0000_0080_0000_0000u64 == 7
        && (0x0000_0400_0000_0000u64 & 0x0000_ff80_0000_0000u64) / 0x0000_0080_0000_0000u64 == 8
        && (0x0000_0480_0000_0000u64 & 0x0000_ff80_0000_0000u64) / 0x0000_0080_0000_0000u64 == 9
        && (0x0000_0500_0000_0000u64 & 0x0000_ff80_0000_0000u64) / 0x0000_0080_0000_0000u64 == 10
        && (0x0000_0580_0000_0000u64 & 0x0000_ff80_0000_0000u64) / 0x0000_0080_0000_0000u64 == 11
        && (0x0000_0600_0000_0000u64 & 0x0000_ff80_0000_0000u64) / 0x0000_0080_0000_0000u64 == 12
    ) by (bit_vector);
}

/// Trap and interrupt numbers.
pub const T_IRQ0: u8 = 32;
pub const T_DIVIDE: u8 = 0;
pub const T_DEBUG: u8 = 1;
pub const T_NMI: u8 = 2;
pub const T_BRKPT: u8 = 3;
pub const T_OFLOW: u8 = 4;
pub const T_BOUND: u8 = 5;
pub const T_ILLOP: u8 = 6;
pub const T_DEVICE: u8 = 7;
pub const T_DBLFLT: u8 = 8;
pub const T_TSS: u8 = 10;
pub const T_SEGNP: u8 = 11;
pub const T_STACK: u8 = 12;
pub const T_GPFLT: u8 = 13;
pub const T_PGFLT: u8 = 14;
pub const T_FPERR: u8 = 16;
pub const T_ALIGN: u8 = 17;
pub const T_MCHK: u8 = 18;
pub const T_SIMDERR: u8 = 19;
pub const T_SYSCALL: u8 = 0x80;
pub const T_SWITCH_TOU: u8 = 120;
pub const T_SWITCH_TOK: u8 = 121;

pub const IRQ_TIMER: u8 = 0;
pub const IRQ_KBD: u8 = 1;
pub const IRQ_COM2: u8 = 3;
pub const IRQ_COM1: u8 = 4;
pub const IRQ_MOUSE: u8 = 12;
pub const IRQ_IDE1: u8 = 14;
pub const IRQ_IDE2: u8 = 15;
pub const IRQ_ERROR: u8 = 19;
pub const IRQ_SPURIOUS: u8 = 31;

} // verus!
