//! Physical and virtual addresses, and the windows that relate them.

use vstd::prelude::*;
use crate::consts::{KERNEL_OFFSET, KERNEL_SIZE};

verus! {

/// A virtual address.
pub type VirtualAddress = u64;

/// A physical address.
#[derive(Debug, Clone, Copy, PartialEq, Eq, Structural)]
pub struct PAddr(pub u64);

impl PAddr {
    /// The address as a number.
    pub fn get(&self) -> (address: u64)
        ensures
            address == self.0,
    {
        self.0
    }

    /// The virtual address at which the identity window shows this
    /// physical address: the same number.
    pub fn to_identity_virtual(&self) -> (address: VirtualAddress)
        ensures
            address == self.0,
    {
        self.0
    }

    /// Whether the kernel window can show this physical address.
    pub open spec fn in_kernel_window(&self) -> bool {
        self.0 < KERNEL_SIZE
    }

    /// The virtual address at which the kernel window shows this physical
    /// address.
    pub fn to_kernel_virtual(&self) -> (address: VirtualAddress)
        requires
            self.in_kernel_window(),
        ensures
            address == self.0 + KERNEL_OFFSET,
    {
        self.0 + KERNEL_OFFSET
    }

    /// The physical address that the kernel window shows at `address`.
    pub fn from_kernel_virtual(address: VirtualAddress) -> (paddr: PAddr)
        requires
            KERNEL_OFFSET <= address < KERNEL_OFFSET + KERNEL_SIZE,
        ensures
            paddr.0 == address - KERNEL_OFFSET,
            paddr.in_kernel_window(),
    {
        PAddr(address - KERNEL_OFFSET)
    }
}

/// Going through the kernel window and back gives the same physical address.
pub proof fn lemma_kernel_window_round_trip(paddr: PAddr)
    requires
        paddr.in_kernel_window(),
    ensures
        KERNEL_OFFSET <= paddr.0 + KERNEL_OFFSET < KERNEL_OFFSET + KERNEL_SIZE,
        (paddr.0 + KERNEL_OFFSET) - KERNEL_OFFSET == paddr.0,
{
}

} // verus!
