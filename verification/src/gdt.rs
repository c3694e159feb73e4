//! The global descriptor table and the selectors of its segments.

use vstd::prelude::*;

verus! {

/// The number of bytes of a task state segment.
pub const TSS_SIZE: u64 = 0x68;

pub const DOUBLE_FAULT_IST_INDEX: usize = 0;

/// The number of entries that the table has room for.
pub const GDT_SIZE: usize = 10;

/// The descriptor of the kernel's code segment: executable, present, long
/// mode.
pub const KCODE: u64 = 0x0020980000000000;

/// The descriptor of the code segment of user mode.
pub const UCODE: u64 = 0x0020F80000000000;

/// The descriptor of the kernel's data segment: writable, present.
pub const KDATA: u64 = 0x0000920000000000;

/// The descriptor of the data segment of user mode.
pub const UDATA: u64 = 0x0000F20000000000;

/// The descriptor of the 32-bit code segment of user mode.
pub const UCODE32: u64 = 0x00cffa00_0000ffff;

/// The descriptor of the 32-bit data segment of user mode.
pub const UDATA32: u64 = 0x00cff200_0000ffff;

/// The selector of the kernel's code segment: entry 2, ring 0.
pub const KCODE_SELECTOR: u16 = 0x10;

/// The selector of the code segment of user mode: entry 3, ring 3.
pub const UCODE_SELECTOR: u16 = 0x1b;

/// The selector of the kernel's data segment: entry 4, ring 0.
pub const KDATA_SELECTOR: u16 = 0x20;

/// The selector of the data segment of user mode: entry 5, ring 3.
pub const UDATA_SELECTOR: u16 = 0x2b;

/// The selector of the task state segment: entry 6, ring 0.
pub const TSS_SELECTOR: u16 = 0x30;

/// Flags of a segment descriptor.
pub const ACCESSED: u64 = 0x0000_0100_0000_0000;

pub const DATA_WRITABLE: u64 = 0x0000_0200_0000_0000;

pub const CODE_READABLE: u64 = 0x0000_0200_0000_0000;

pub const CONFORMING: u64 = 0x0000_0400_0000_0000;

pub const EXECUTABLE: u64 = 0x0000_0800_0000_0000;

pub const USER_SEGMENT: u64 = 0x0000_1000_0000_0000;

pub const USER_MODE: u64 = 0x0000_6000_0000_0000;

pub const PRESENT: u64 = 0x0000_8000_0000_0000;

pub const LONG_MODE: u64 = 0x0020_0000_0000_0000;

/// The selector of the entry at `index` for the privilege level `ring`.
pub open spec fn selector(index: u16, ring: u16) -> u16 {
    (index << 3) | ring
}

/// The bits `start..end` of `value`, moved down to bit 0.
pub open spec fn bit_range(value: u64, start: usize, end: usize) -> u64 {
    ((value << ((64 - end) as u64)) >> ((64 - end) as u64)) >> (start as u64)
}

/// `value` with its bits `start..end` replaced by `field`.
pub open spec fn with_bit_range(value: u64, start: usize, end: usize, field: u64) -> u64 {
    (value & !((((!0u64) << ((64 - end) as u64)) >> ((64 - end) as u64) >> (start as u64)) << (
    start as u64))) | (field << (start as u64))
}

/// `field` has no bit set beyond its lowest `end - start`.
pub open spec fn fits_bit_range(start: usize, end: usize, field: u64) -> bool {
    (field << ((64 - (end - start)) as u64)) >> ((64 - (end - start)) as u64) == field
}

/// Calls `x86_64::registers::segmentation::SegmentSelector::new` with the
/// privilege level that `x86_64::PrivilegeLevel::from_u16` makes of `ring`,
/// and hands back the bits of the selector.
///
/// The contract claims what the source of `new` computes: the index moved
/// up by three bits, with the ring in the two lowest bits. `from_u16`
/// panics for a ring above 3, which is left out.
#[verifier::external_body]
fn segment_selector(index: u16, ring: u16) -> (bits: u16)
    requires
        ring <= 3,
    ensures
        bits == selector(index, ring),
{
    x86_64::registers::segmentation::SegmentSelector::new(
        index,
        x86_64::PrivilegeLevel::from_u16(ring),
    ).0
}

/// Calls `bit_field::BitField::get_bits` on a `u64` with the range
/// `start..end`.
///
/// The contract claims what the source computes for a range that is not
/// empty: the bits above the range are moved out at the top, and the rest
/// is moved down to bit 0. The source panics for a range that does not lie
/// within the 64 bits; such ranges are left out, and so is the empty one.
#[verifier::external_body]
fn get_bits(value: u64, start: usize, end: usize) -> (bits: u64)
    requires
        start < end <= 64,
    ensures
        bits == bit_range(value, start, end),
{
    bit_field::BitField::get_bits(&value, start..end)
}

/// Calls `bit_field::BitField::set_bits` on a `u64` with the range
/// `start..end` and hands back the changed word.
///
/// The contract claims what the source computes for a range that is not
/// empty: the bits of the range are cleared and the field, moved up to the
/// start of the range, is put in. The source panics for a range that does
/// not lie within the 64 bits and for a field that has bits beyond the
/// length of the range; both are left out, and so is the empty range.
#[verifier::external_body]
fn set_bits(value: u64, start: usize, end: usize, field: u64) -> (result: u64)
    requires
        start < end <= 64,
        fits_bit_range(start, end, field),
    ensures
        result == with_bit_range(value, start, end, field),
{
    let mut word = value;
    bit_field::BitField::set_bits(&mut word, start..end, field);
    word
}

/// The lower word of the descriptor of the task state segment at `base`:
/// present, of the type "available 64-bit TSS", with the limit of the
/// segment in bits 0 to 15, the lowest 24 bits of the base in bits 16 to
/// 39 and the next 8 bits of the base in bits 56 to 63.
pub open spec fn tss_low(base: u64) -> u64 {
    PRESENT | (0b1001u64 << 40) | ((TSS_SIZE - 1) as u64) | ((base & 0xff_ffff) << 16) | (((base
        >> 24) & 0xff) << 56)
}

/// The upper word of the descriptor of the task state segment at `base`:
/// the upper 32 bits of the base.
pub open spec fn tss_high(base: u64) -> u64 {
    base >> 32
}

/// An entry of the table: a user segment takes one slot, a system segment
/// two.
#[derive(Debug, Clone, Copy, PartialEq, Eq, Structural)]
pub enum Descriptor {
    UserSegment(u64),
    SystemSegment(u64, u64),
}

impl Descriptor {
    /// The descriptor of a code segment of the kernel: a user segment that
    /// is present, executable and in long mode.
    pub fn kernel_code_segment() -> (descriptor: Descriptor)
        ensures
            descriptor == Descriptor::UserSegment(KCODE),
    {
        let flags = USER_SEGMENT | PRESENT | EXECUTABLE | LONG_MODE;
        assert(USER_SEGMENT | PRESENT | EXECUTABLE | LONG_MODE == KCODE) by (bit_vector);
        Descriptor::UserSegment(flags)
    }

    /// The descriptor of the task state segment that lies at the address
    /// `base`.
    pub fn tss_segment(base: u64) -> (descriptor: Descriptor)
        ensures
            descriptor == Descriptor::SystemSegment(tss_low(base), tss_high(base)),
    {
        let mut low = PRESENT;
        // base
        let base_low = get_bits(base, 0, 24);
        let base_mid = get_bits(base, 24, 32);
        let base_high = get_bits(base, 32, 64);
        assert({
            &&& ((base << 40u64) >> 40u64) >> 0u64 == base & 0xff_ffff
            &&& ((base << 32u64) >> 32u64) >> 24u64 == (base >> 24) & 0xff
            &&& ((base << 0u64) >> 0u64) >> 32u64 == base >> 32
            &&& ((base & 0xff_ffff) << 40u64) >> 40u64 == base & 0xff_ffff
            &&& (((base >> 24) & 0xff) << 56u64) >> 56u64 == (base >> 24) & 0xff
            &&& ((base >> 32) << 32u64) >> 32u64 == base >> 32
            &&& (0x67u64 << 48u64) >> 48u64 == 0x67
            &&& (0b1001u64 << 60u64) >> 60u64 == 0b1001
        }) by (bit_vector);
        low = set_bits(low, 16, 40, base_low);
        low = set_bits(low, 56, 64, base_mid);
        // limit (the `-1` is needed since the bound is inclusive)
        low = set_bits(low, 0, 16, TSS_SIZE - 1);
        // type (0b1001 = available 64-bit tss)
        low = set_bits(low, 40, 44, 0b1001);
        let mut high: u64 = 0;
        high = set_bits(high, 0, 32, base_high);
        assert({
            let a = base & 0xff_ffff;
            let b = (base >> 24) & 0xff;
            let l1 = (PRESENT & !((((!0u64) << 24u64) >> 24u64 >> 16u64) << 16u64)) | (a << 16u64);
            let l2 = (l1 & !((((!0u64) << 0u64) >> 0u64 >> 56u64) << 56u64)) | (b << 56u64);
            let l3 = (l2 & !((((!0u64) << 48u64) >> 48u64 >> 0u64) << 0u64)) | (0x67u64 << 0u64);
            let l4 = (l3 & !((((!0u64) << 20u64) >> 20u64 >> 40u64) << 40u64)) | (0b1001u64
                << 40u64);
            let h = (0u64 & !((((!0u64) << 32u64) >> 32u64 >> 0u64) << 0u64)) | ((base >> 32)
                << 0u64);
            &&& l4 == PRESENT | (0b1001u64 << 40) | 0x67u64 | (a << 16) | (b << 56)
            &&& h == base >> 32
        }) by (bit_vector);
        Descriptor::SystemSegment(low, high)
    }

    /// The number of slots that the descriptor takes.
    pub open spec fn slots(&self) -> int {
        match self {
            Descriptor::UserSegment(_) => 1,
            Descriptor::SystemSegment(_, _) => 2,
        }
    }
}

/// The global descriptor table. Slot 0 stays empty.
pub struct Gdt {
    table: Vec<u64>,
    next_free: usize,
}

impl Gdt {
    /// The slots of the table.
    pub closed spec fn table(&self) -> Seq<u64> {
        self.table@
    }

    /// The index of the first slot that is free.
    pub closed spec fn next_free(&self) -> int {
        self.next_free as int
    }

    /// The table has its ten slots, and the free ones are at its end.
    pub open spec fn wf(&self) -> bool {
        self.table().len() == GDT_SIZE && 1 <= self.next_free() <= GDT_SIZE
    }

    /// A table with every slot zero, the first of which is taken.
    pub fn new() -> (gdt: Gdt)
        ensures
            gdt.wf(),
            gdt.next_free() == 1,
            forall|i: int| 0 <= i < GDT_SIZE ==> gdt.table()[i] == 0,
    {
        let mut table: Vec<u64> = Vec::new();
        let mut i: usize = 0;
        while i < GDT_SIZE
            invariant
                i <= GDT_SIZE,
                table@.len() == i,
                forall|j: int| 0 <= j < i ==> table@[j] == 0,
            decreases GDT_SIZE - i,
        {
            table.push(0);
            i += 1;
        }
        Gdt { table, next_free: 1 }
    }

    /// Puts `entry` into the free slots that come next and hands back the
    /// selector of its first slot for ring 0.
    pub fn add_entry(&mut self, entry: Descriptor) -> (selector_bits: u16)
        requires
            old(self).wf(),
            old(self).next_free() + entry.slots() <= GDT_SIZE,
        ensures
            final(self).wf(),
            final(self).next_free() == old(self).next_free() + entry.slots(),
            selector_bits == selector(old(self).next_free() as u16, 0),
            final(self).table() == match entry {
                Descriptor::UserSegment(value) => old(self).table().update(
                    old(self).next_free(),
                    value,
                ),
                Descriptor::SystemSegment(low, high) => old(self).table().update(
                    old(self).next_free(),
                    low,
                ).update(old(self).next_free() + 1, high),
            },
    {
        let index = match entry {
            Descriptor::UserSegment(value) => self.push(value),
            Descriptor::SystemSegment(value_low, value_high) => {
                let index = self.push(value_low);
                self.push(value_high);
                index
            },
        };
        segment_selector(index as u16, 0)
    }

    /// Puts `value` into the first free slot and hands back its index.
    pub fn push(&mut self, value: u64) -> (index: usize)
        requires
            old(self).wf(),
            old(self).next_free() < GDT_SIZE,
        ensures
            final(self).wf(),
            index == old(self).next_free(),
            final(self).next_free() == old(self).next_free() + 1,
            final(self).table() == old(self).table().update(index as int, value),
    {
        let index = self.next_free;
        self.table[index] = value;
        self.next_free += 1;
        index
    }

    /// The slot at `index`.
    pub fn get(&self, index: usize) -> (value: u64)
        requires
            self.wf(),
            index < GDT_SIZE,
        ensures
            value == self.table()[index as int],
    {
        self.table[index]
    }

    /// The number of bytes of the table, less one: the limit with which the
    /// table is loaded.
    pub fn limit(&self) -> (limit: u16)
        requires
            self.wf(),
        ensures
            limit == GDT_SIZE * 8 - 1,
    {
        (self.table.len() * 8 - 1) as u16
    }
}

/// The selectors are those of the entries 2 to 6, the segments of the
/// kernel for ring 0 and those of user mode for ring 3.
pub proof fn lemma_selectors()
    ensures
        KCODE_SELECTOR == selector(2, 0),
        UCODE_SELECTOR == selector(3, 3),
        KDATA_SELECTOR == selector(4, 0),
        UDATA_SELECTOR == selector(5, 3),
        TSS_SELECTOR == selector(6, 0),
{
    assert(0x10u16 == (2u16 << 3) | 0 && 0x1bu16 == (3u16 << 3) | 3 && 0x20u16 == (4u16 << 3) | 0
        && 0x2bu16 == (5u16 << 3) | 3 && 0x30u16 == (6u16 << 3) | 0) by (bit_vector);
}

/// The table with which the kernel runs: the code and data segments of the
/// kernel and of user mode, the 32-bit segments of user mode, and the task
/// state segment at the address `tss_base`, in this order from slot 1 on.
/// The second result is the selector of the task state segment.
pub fn init(tss_base: u64) -> (result: (Gdt, u16))
    ensures
        result.0.wf(),
        result.0.next_free() == 9,
        result.0.table()[0] == 0,
        result.0.table()[1] == KCODE,
        result.0.table()[2] == UCODE,
        result.0.table()[3] == KDATA,
        result.0.table()[4] == UDATA,
        result.0.table()[5] == UCODE32,
        result.0.table()[6] == UDATA32,
        result.0.table()[7] == tss_low(tss_base),
        result.0.table()[8] == tss_high(tss_base),
        result.0.table()[9] == 0,
        result.1 == selector(7, 0),
{
    let mut gdt = Gdt::new();
    assert(gdt.table()[0] == 0 && gdt.table()[9] == 0);
    gdt.add_entry(Descriptor::UserSegment(KCODE));
    gdt.add_entry(Descriptor::UserSegment(UCODE));
    gdt.add_entry(Descriptor::UserSegment(KDATA));
    gdt.add_entry(Descriptor::UserSegment(UDATA));
    gdt.add_entry(Descriptor::UserSegment(UCODE32));
    gdt.add_entry(Descriptor::UserSegment(UDATA32));
    let tss_selector = gdt.add_entry(Descriptor::tss_segment(tss_base));
    (gdt, tss_selector)
}

} // verus!
