//! Virtual memory management for drivers: the regions of address space that
//! are set aside for them.

use vstd::prelude::*;
use crate::paging::table::MapError;

verus! {

/// Memory protection flags.
#[derive(PartialEq, Eq, Debug, Copy, Clone, Structural)]
pub enum ProtectionMode {
    /// Inaccessible
    Unmapped,
    /// Kernel readonly
    KernelRO,
    /// Kernel read-write
    KernelRW,
    /// Kernel read-execute
    KernelRX,
    /// User
    UserRO,
    UserRW,
    UserRX,
    /// User Copy-on-write (becomes UserRW on write)
    UserCOW,
    /// AVOID - Read-Write-Execute (exists for internal reasons)
    UserRWX,
}

/// Sets `page_count` pages at `addr` aside. Nothing is mapped yet; the
/// call always succeeds.
pub fn allocate(addr: u64, page_count: usize) -> (result: Result<(), MapError>)
    ensures
        result is Ok,
{
    Ok(())
}

/// Handle to a reserved region of address space: its address and its
/// number of pages.
#[derive(Debug, Clone, Copy, PartialEq, Eq, Structural)]
pub struct Reservation(pub u64, pub usize);

/// Reserves `page_count` pages of address space at `addr`.
pub fn reserve(addr: u64, page_count: usize) -> (result: Result<Reservation, ()>)
    ensures
        result == Ok::<Reservation, ()>(Reservation(addr, page_count)),
{
    Ok(Reservation(addr, page_count))
}

impl Reservation {
    /// The address of the page with the number `idx` of the region.
    pub fn get_mut_page(&self, idx: usize) -> (address: u64)
        requires
            idx < self.1,
            self.0 + idx * 4096 <= u64::MAX,
        ensures
            address == self.0 + idx * 4096,
    {
        self.0 + (idx as u64) * 4096
    }

    /// Gives the region its final protection. The call always succeeds.
    pub fn finalise(self, final_mode: ProtectionMode) -> (result: Result<(), ()>)
        ensures
            result is Ok,
    {
        Ok(())
    }
}

} // verus!
