//! Page-table entries and their flags.
//!
//! An entry is a 64-bit word. Bits 12 to 51 hold the physical address of the
//! frame it points to, bits 0 to 8 and bit 63 hold flags, and bits 52 to 61
//! are free for the table's own use: the first entry of every table keeps
//! the number of the table's live entries there.

use vstd::prelude::*;
use crate::memory::frame::{Frame, MAX_FRAME_NUMBER};

verus! {

pub const PRESENT: u64 = 0x1;

pub const WRITABLE: u64 = 0x2;

pub const USER_ACCESSIBLE: u64 = 0x4;

pub const WRITE_THROUGH: u64 = 0x8;

pub const NO_CACHE: u64 = 0x10;

pub const ACCESSED: u64 = 0x20;

pub const DIRTY: u64 = 0x40;

pub const HUGE_PAGE: u64 = 0x80;

pub const GLOBAL: u64 = 0x100;

pub const NO_EXECUTE: u64 = 0x8000_0000_0000_0000;

/// Every bit that is a flag.
pub const ALL_FLAGS: u64 = 0x8000_0000_0000_01ff;

/// The bits of an entry that hold the address.
pub const ADDRESS_MASK: u64 = 0x000f_ffff_ffff_f000;

/// The bits of an entry that hold the counter.
pub const COUNTER_MASK: u64 = 0x3ff0_0000_0000_0000;

/// The largest value that the counter bits can hold.
pub const MAX_COUNTER: u64 = 0x3ff;

/// Counting an entry up and down again leaves it bit for bit as it was, and
/// so does setting the counter to the value that it has.
pub proof fn lemma_counter_round_trip(entry: Entry, count: u64)
    requires
        entry.spec_counter() == count,
        count < MAX_COUNTER,
    ensures
        entry.with_counter((count + 1) as u64).with_counter(count) == entry,
        entry.with_counter(count) == entry,
{
    let v = entry.0;
    assert((v & COUNTER_MASK) >> 52 == count && count < 0x3ff ==> {
        &&& ((((v & !COUNTER_MASK) | (((count + 1) as u64) << 52)) & !COUNTER_MASK) | (count << 52)) == v
        &&& ((v & !COUNTER_MASK) | (count << 52)) == v
    }) by (bit_vector);
}

/// A set of entry flags.
#[derive(Debug, Clone, Copy, PartialEq, Eq, Structural)]
pub struct EntryFlags {
    pub bits: u64,
}

impl EntryFlags {
    /// Only flag bits are set.
    pub open spec fn valid(&self) -> bool {
        self.bits & !ALL_FLAGS == 0
    }

    /// Every flag of `other` is in this set.
    pub open spec fn spec_contains(&self, other: EntryFlags) -> bool {
        self.bits & other.bits == other.bits
    }

    /// The set holds the flag that marks an entry as present.
    pub open spec fn is_present(&self) -> bool {
        self.bits & PRESENT != 0
    }

    /// The set holds the flag that marks an entry as a huge page.
    pub open spec fn is_huge(&self) -> bool {
        self.bits & HUGE_PAGE != 0
    }

    /// The empty set.
    pub fn empty() -> (flags: EntryFlags)
        ensures
            flags.bits == 0,
            flags.valid(),
            !flags.is_present(),
            !flags.is_huge(),
    {
        assert(0u64 & !ALL_FLAGS == 0 && 0u64 & PRESENT == 0 && 0u64 & HUGE_PAGE == 0)
            by (bit_vector);
        EntryFlags { bits: 0 }
    }

    /// The set with exactly the flag bits of `bits`, or `None` where `bits`
    /// holds a bit that is no flag.
    pub fn from_bits(bits: u64) -> (flags: Option<EntryFlags>)
        ensures
            flags == if bits & !ALL_FLAGS == 0 {
                Some(EntryFlags { bits })
            } else {
                None
            },
    {
        if bits & !ALL_FLAGS == 0 {
            Some(EntryFlags { bits })
        } else {
            None
        }
    }

    /// The set of the flag bits of `bits`; other bits are dropped.
    pub fn from_bits_truncate(bits: u64) -> (flags: EntryFlags)
        ensures
            flags.bits == bits & ALL_FLAGS,
            flags.valid(),
            flags.is_present() == (bits & PRESENT != 0),
            flags.is_huge() == (bits & HUGE_PAGE != 0),
            bits & !ALL_FLAGS == 0 ==> flags.bits == bits,
    {
        assert((bits & ALL_FLAGS) & !ALL_FLAGS == 0 && ((bits & ALL_FLAGS) & PRESENT != 0) == (bits
            & PRESENT != 0) && ((bits & ALL_FLAGS) & HUGE_PAGE != 0) == (bits & HUGE_PAGE != 0) && (
        bits & !ALL_FLAGS == 0 ==> bits & ALL_FLAGS == bits)) by (bit_vector);
        EntryFlags { bits: bits & ALL_FLAGS }
    }

    /// The flags as a word.
    pub fn bits(&self) -> (bits: u64)
        ensures
            bits == self.bits,
    {
        self.bits
    }

    /// Whether every flag of `other` is in this set.
    pub fn contains(&self, other: EntryFlags) -> (result: bool)
        ensures
            result == self.spec_contains(other),
    {
        self.bits & other.bits == other.bits
    }

    /// The flags that are in this set or in `other`.
    pub fn union(self, other: EntryFlags) -> (flags: EntryFlags)
        ensures
            flags.bits == self.bits | other.bits,
            self.valid() && other.valid() ==> flags.valid(),
            flags.is_present() == (self.is_present() || other.is_present()),
            flags.is_huge() == (self.is_huge() || other.is_huge()),
            flags.spec_contains(self),
            flags.spec_contains(other),
    {
        let a = self.bits;
        let b = other.bits;
        assert((a & !ALL_FLAGS == 0 && b & !ALL_FLAGS == 0 ==> (a | b) & !ALL_FLAGS == 0) && (((a
            | b) & PRESENT != 0) == (a & PRESENT != 0 || b & PRESENT != 0)) && (((a | b) & HUGE_PAGE
            != 0) == (a & HUGE_PAGE != 0 || b & HUGE_PAGE != 0)) && (a | b) & a == a && (a | b) & b
            == b) by (bit_vector);
        EntryFlags { bits: self.bits | other.bits }
    }
}

impl EntryFlags {
    /// The flags with which a segment of a user program is mapped: present
    /// and open to user mode, writable where the segment is, and barred
    /// from execution where the segment is not executable.
    pub open spec fn for_segment(writable: bool, executable: bool) -> EntryFlags {
        EntryFlags {
            bits: (PRESENT | USER_ACCESSIBLE) | (if writable {
                WRITABLE
            } else {
                0
            }) | (if executable {
                0
            } else {
                NO_EXECUTE
            }),
        }
    }

    /// The flags with which a section of the kernel image is mapped:
    /// present where the section takes up memory, writable where the
    /// section is, and barred from execution where the section holds no
    /// code.
    pub open spec fn for_section(allocated: bool, writable: bool, executable: bool) -> EntryFlags {
        EntryFlags {
            bits: (if allocated {
                PRESENT
            } else {
                0
            }) | (if writable {
                WRITABLE
            } else {
                0
            }) | (if executable {
                0
            } else {
                NO_EXECUTE
            }),
        }
    }

    /// The flags with which a section of the kernel image is mapped.
    pub fn from_elf_section_flags(allocated: bool, writable: bool, executable: bool) -> (flags:
        EntryFlags)
        ensures
            flags == Self::for_section(allocated, writable, executable),
            flags.valid(),
    {
        // A section that is not loaded to memory is not present.
        let present = if allocated {
            PRESENT
        } else {
            0
        };
        let write = if writable {
            WRITABLE
        } else {
            0
        };
        let no_execute = if executable {
            0
        } else {
            NO_EXECUTE
        };
        let bits = present | write | no_execute;
        assert((present | write | no_execute) & !ALL_FLAGS == 0) by (bit_vector)
            requires
                present == PRESENT || present == 0,
                write == WRITABLE || write == 0,
                no_execute == NO_EXECUTE || no_execute == 0,
        ;
        EntryFlags { bits }
    }

    /// The flags with which a segment of a user program is mapped.
    pub fn from_segment(writable: bool, executable: bool) -> (flags: EntryFlags)
        ensures
            flags == Self::for_segment(writable, executable),
            flags.valid(),
            flags.is_present(),
            !flags.is_huge(),
    {
        let mut bits = PRESENT | USER_ACCESSIBLE;
        if writable {
            bits = bits | WRITABLE;
        }
        if !executable {
            bits = bits | NO_EXECUTE;
        }
        assert({
            let base = PRESENT | USER_ACCESSIBLE;
            &&& (base | 0 | 0) == base
            &&& (base | WRITABLE | 0) == (base | WRITABLE)
            &&& (base | 0 | NO_EXECUTE) == (base | NO_EXECUTE)
            &&& base & !ALL_FLAGS == 0 && base & PRESENT != 0 && base & HUGE_PAGE == 0
            &&& (base | WRITABLE) & !ALL_FLAGS == 0 && (base | WRITABLE) & PRESENT != 0 && (base
                | WRITABLE) & HUGE_PAGE == 0
            &&& (base | NO_EXECUTE) & !ALL_FLAGS == 0 && (base | NO_EXECUTE) & PRESENT != 0 && (base
                | NO_EXECUTE) & HUGE_PAGE == 0
            &&& (base | WRITABLE | NO_EXECUTE) & !ALL_FLAGS == 0 && (base | WRITABLE | NO_EXECUTE)
                & PRESENT != 0 && (base | WRITABLE | NO_EXECUTE) & HUGE_PAGE == 0
        }) by (bit_vector);
        EntryFlags { bits }
    }
}

/// What an entry says, apart from the counter: the frame it points to and
/// its flags.
pub struct Mapping {
    pub frame: Frame,
    pub flags: EntryFlags,
}

/// One entry of a page table.
#[derive(Debug, Clone, Copy, PartialEq, Eq, Structural)]
pub struct Entry(pub u64);

impl Entry {
    /// Only address, flag and counter bits are set.
    pub open spec fn clean(&self) -> bool {
        self.0 & !(ADDRESS_MASK | ALL_FLAGS | COUNTER_MASK) == 0
    }

    /// Nothing but the counter is set.
    pub open spec fn spec_is_unused(&self) -> bool {
        self.0 == self.0 & COUNTER_MASK
    }

    /// The flags of the entry.
    pub open spec fn spec_flags(&self) -> EntryFlags {
        EntryFlags { bits: self.0 & ALL_FLAGS }
    }

    /// The entry is marked present.
    pub open spec fn is_present(&self) -> bool {
        self.spec_flags().is_present()
    }

    /// The entry is marked as a huge page.
    pub open spec fn is_huge(&self) -> bool {
        self.spec_flags().is_huge()
    }

    /// The number of the frame whose address the entry holds.
    pub open spec fn frame_number(&self) -> u64 {
        (self.0 & ADDRESS_MASK) / 4096
    }

    /// The entry with its counter bits set to `count`, and everything else
    /// as it is.
    pub open spec fn with_counter(&self, count: u64) -> Entry {
        Entry((self.0 & !COUNTER_MASK) | (count << 52))
    }

    /// The value of the counter bits.
    pub open spec fn spec_counter(&self) -> u64 {
        (self.0 & COUNTER_MASK) >> 52
    }

    /// The frame and the flags of a present entry.
    pub open spec fn mapping(&self) -> Option<Mapping> {
        if self.is_present() {
            Some(Mapping { frame: Frame { number: self.frame_number() }, flags: self.spec_flags() })
        } else {
            None
        }
    }

    /// An entry with no bit set.
    pub fn zero() -> (entry: Entry)
        ensures
            entry.0 == 0,
            entry.clean(),
            entry.spec_is_unused(),
            !entry.is_present(),
            !entry.is_huge(),
            entry.spec_counter() == 0,
            entry.frame_number() == 0,
    {
        proof {
            lemma_zero_entry();
        }
        Entry(0)
    }

    /// Clears every bit, the counter too.
    pub fn set_zero(&mut self)
        ensures
            *final(self) == Entry(0),
    {
        self.0 = 0;
    }

    /// Whether nothing but the counter is set.
    pub fn is_unused(&self) -> (unused: bool)
        ensures
            unused == self.spec_is_unused(),
    {
        self.0 == (self.0 & COUNTER_MASK)
    }

    /// Clears everything but the counter.
    pub fn set_unused(&mut self)
        ensures
            final(self).0 == old(self).0 & COUNTER_MASK,
            final(self).spec_is_unused(),
            final(self).clean(),
            !final(self).is_present(),
            !final(self).is_huge(),
            final(self).frame_number() == 0,
            final(self).spec_counter() == old(self).spec_counter(),
    {
        let v = self.0;
        assert({
            let w = v & COUNTER_MASK;
            &&& w == w & COUNTER_MASK
            &&& w & !(ADDRESS_MASK | ALL_FLAGS | COUNTER_MASK) == 0
            &&& (w & ALL_FLAGS) & PRESENT == 0
            &&& (w & ALL_FLAGS) & HUGE_PAGE == 0
            &&& (w & ADDRESS_MASK) / 4096 == 0
            &&& (w & COUNTER_MASK) >> 52 == (v & COUNTER_MASK) >> 52
        }) by (bit_vector);
        self.0 = self.0 & COUNTER_MASK;
    }

    /// The physical address that the entry holds.
    pub fn address(&self) -> (address: u64)
        ensures
            address == self.0 & ADDRESS_MASK,
            address == self.frame_number() * 4096,
            address < 0x0010_0000_0000_0000,
    {
        let v = self.0;
        assert((v & ADDRESS_MASK) == ((v & ADDRESS_MASK) / 4096) * 4096 && (v & ADDRESS_MASK)
            < 0x0010_0000_0000_0000) by (bit_vector);
        self.0 & ADDRESS_MASK
    }

    /// The flags of the entry.
    pub fn flags(&self) -> (flags: EntryFlags)
        ensures
            flags == self.spec_flags(),
            flags.valid(),
    {
        EntryFlags::from_bits_truncate(self.0)
    }

    /// The frame that a present entry points to.
    pub fn pointed_frame(&self) -> (frame: Option<Frame>)
        ensures
            frame == if self.is_present() {
                Some(Frame { number: self.frame_number() })
            } else {
                None
            },
            frame matches Some(f) ==> f.valid(),
    {
        let v = self.0;
        assert(((v & ALL_FLAGS) & PRESENT == PRESENT) == ((v & ALL_FLAGS) & PRESENT != 0) && (v
            & ADDRESS_MASK) / 4096 <= MAX_FRAME_NUMBER) by (bit_vector);
        if self.flags().contains(EntryFlags { bits: PRESENT }) {
            Some(Frame::containing_address(self.address()))
        } else {
            None
        }
    }

    /// Points the entry to `frame` with the given flags. The counter stays.
    pub fn set(&mut self, frame: Frame, flags: EntryFlags)
        requires
            frame.valid(),
            flags.valid(),
        ensures
            final(self).clean(),
            final(self).frame_number() == frame.number,
            final(self).spec_flags() == flags,
            final(self).is_present() == flags.is_present(),
            final(self).is_huge() == flags.is_huge(),
            final(self).spec_counter() == old(self).spec_counter(),
            final(self).spec_is_unused() == (frame.number == 0 && flags.bits == 0),
    {
        let n = frame.number;
        let f = flags.bits;
        let v = self.0;
        assert(n <= MAX_FRAME_NUMBER && f & !ALL_FLAGS == 0 ==> {
            let w = ((n * 4096) as u64) | f | (v & COUNTER_MASK);
            &&& n * 4096 <= 0xffff_ffff_ffff_ffff
            &&& w & !(ADDRESS_MASK | ALL_FLAGS | COUNTER_MASK) == 0
            &&& (w & ADDRESS_MASK) / 4096 == n
            &&& w & ALL_FLAGS == f
            &&& (w & COUNTER_MASK) >> 52 == (v & COUNTER_MASK) >> 52
            &&& (w == w & COUNTER_MASK) == (n == 0 && f == 0)
        }) by (bit_vector);
        self.0 = (frame.start_address().get()) | flags.bits() | (self.0 & COUNTER_MASK);
    }

    /// The value of the counter bits.
    pub fn counter_bits(&self) -> (count: u64)
        ensures
            count == self.spec_counter(),
            count <= MAX_COUNTER,
    {
        let v = self.0;
        assert((v & COUNTER_MASK) >> 52 <= MAX_COUNTER) by (bit_vector);
        (self.0 & COUNTER_MASK) >> 52
    }

    /// Sets the counter bits to `count`. Everything else stays.
    pub fn set_counter_bits(&mut self, count: u64)
        requires
            count <= MAX_COUNTER,
        ensures
            *final(self) == old(self).with_counter(count),
            final(self).spec_counter() == count,
            final(self).clean() == old(self).clean(),
            final(self).frame_number() == old(self).frame_number(),
            final(self).spec_flags() == old(self).spec_flags(),
            final(self).spec_is_unused() == old(self).spec_is_unused(),
    {
        let v = self.0;
        assert(count <= MAX_COUNTER ==> {
            let w = (v & !COUNTER_MASK) | (count << 52);
            &&& (w & COUNTER_MASK) >> 52 == count
            &&& (w & !(ADDRESS_MASK | ALL_FLAGS | COUNTER_MASK) == 0) == (v & !(ADDRESS_MASK
                | ALL_FLAGS | COUNTER_MASK) == 0)
            &&& (w & ADDRESS_MASK) / 4096 == (v & ADDRESS_MASK) / 4096
            &&& w & ALL_FLAGS == v & ALL_FLAGS
            &&& (w == w & COUNTER_MASK) == (v == v & COUNTER_MASK)
        }) by (bit_vector);
        self.0 = (self.0 & !COUNTER_MASK) | (count << 52);
    }
}

/// The entry with no bit set is not in use, and its counter is zero.
pub proof fn lemma_zero_entry()
    ensures
        Entry(0).clean(),
        Entry(0).spec_is_unused(),
        !Entry(0).is_present(),
        !Entry(0).is_huge(),
        Entry(0).spec_counter() == 0,
        Entry(0).frame_number() == 0,
        Entry(0).mapping().is_none(),
{
    assert(0u64 & !(ADDRESS_MASK | ALL_FLAGS | COUNTER_MASK) == 0 && 0u64 == 0u64 & COUNTER_MASK && (
    0u64 & ALL_FLAGS) & PRESENT == 0 && (0u64 & ALL_FLAGS) & HUGE_PAGE == 0 && (0u64 & COUNTER_MASK)
        >> 52 == 0 && (0u64 & ADDRESS_MASK) / 4096 == 0) by (bit_vector);
}

/// An entry that is not in use is not present and points nowhere.
pub proof fn lemma_unused_entry(entry: Entry)
    requires
        entry.spec_is_unused(),
    ensures
        !entry.is_present(),
        !entry.is_huge(),
        entry.frame_number() == 0,
        entry.spec_flags().bits == 0,
        entry.clean(),
        entry.mapping().is_none(),
{
    let v = entry.0;
    assert(v == v & COUNTER_MASK ==> (v & ALL_FLAGS) & PRESENT == 0 && (v & ALL_FLAGS) & HUGE_PAGE
        == 0 && (v & ADDRESS_MASK) / 4096 == 0 && v & ALL_FLAGS == 0 && v & !(ADDRESS_MASK
        | ALL_FLAGS | COUNTER_MASK) == 0) by (bit_vector);
}

} // verus!
