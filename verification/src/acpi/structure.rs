//! The tables of ACPI, read from the bytes in which the firmware lays them
//! out. Numbers of more than one byte have their lowest byte first.

use vstd::prelude::*;

verus! {

/// The number of bytes of the root pointer.
pub const RSDP_SIZE: usize = 36;

/// The number of bytes of the header of a table.
pub const HEADER_SIZE: usize = 36;

/// The number of bytes of the fixed part of the table of interrupt
/// controllers: the header, the address of the local controller and the
/// flags.
pub const MADT_SIZE: usize = 44;

/// The number of the 32 bits that start at `offset`.
pub open spec fn le_u32(bytes: Seq<u8>, offset: int) -> int {
    bytes[offset] + 256 * bytes[offset + 1] + 65536 * bytes[offset + 2] + 16777216 * bytes[offset
        + 3]
}

/// The number of the 64 bits that start at `offset`.
pub open spec fn le_u64(bytes: Seq<u8>, offset: int) -> int {
    le_u32(bytes, offset) + 0x1_0000_0000 * le_u32(bytes, offset + 4)
}

/// The sum of the `len` bytes from `offset` on.
pub open spec fn bytes_sum(bytes: Seq<u8>, offset: int, len: nat) -> int
    decreases len,
{
    if len == 0 {
        0
    } else {
        bytes_sum(bytes, offset, (len - 1) as nat) + bytes[offset + len - 1]
    }
}

/// Reads the number of the 32 bits that start at `offset`.
pub fn read_u32(bytes: &[u8], offset: usize) -> (value: u32)
    requires
        offset + 4 <= bytes@.len(),
    ensures
        value == le_u32(bytes@, offset as int),
{
    let _ = bytes.len();
    (bytes[offset] as u32) + (bytes[offset + 1] as u32) * 256 + (bytes[offset + 2] as u32) * 65536
        + (bytes[offset + 3] as u32) * 16777216
}

/// Reads the number of the 64 bits that start at `offset`.
pub fn read_u64(bytes: &[u8], offset: usize) -> (value: u64)
    requires
        offset + 8 <= bytes@.len(),
    ensures
        value == le_u64(bytes@, offset as int),
{
    let _ = bytes.len();
    (read_u32(bytes, offset) as u64) + (read_u32(bytes, offset + 4) as u64) * 0x1_0000_0000
}

/// The sum of the `len` bytes from `offset` on, as far as its lowest eight
/// bits go.
pub fn checksum(bytes: &[u8], offset: usize, len: usize) -> (sum: u8)
    requires
        offset + len <= bytes@.len(),
    ensures
        sum == bytes_sum(bytes@, offset as int, len as nat) % 256,
{
    let _ = bytes.len();
    let mut sum: u8 = 0;
    let mut i: usize = 0;
    while i < len
        invariant
            i <= len,
            offset + len <= bytes@.len(),
            bytes@.len() <= usize::MAX,
            sum == bytes_sum(bytes@, offset as int, i as nat) % 256,
        decreases len - i,
    {
        let byte = bytes[offset + i];
        let ghost before = bytes_sum(bytes@, offset as int, i as nat);
        sum = ((sum as u16 + byte as u16) % 256) as u8;
        proof {
            vstd::arithmetic::div_mod::lemma_add_mod_noop(before, byte as int, 256);
            vstd::arithmetic::div_mod::lemma_small_mod(byte as nat, 256);
        }
        i += 1;
    }
    sum
}

/// The root pointer, from which the tables are found.
#[allow(non_snake_case)]
#[derive(Debug, Clone, Copy, PartialEq, Eq, Structural)]
pub struct Rsdp {
    pub checksum: u8,
    pub revision: u8,
    pub rsdtPhyAddr: u32,
    pub length: u32,
    pub xsdtPhyAddr: u64,
    pub extChecksum: u8,
}

/// The bytes from `offset` on are a root pointer: they start with the
/// signature `"RSD PTR "`, and the sum of the 36 bytes is a multiple of
/// 256.
pub open spec fn is_rsdp_at(bytes: Seq<u8>, offset: int) -> bool {
    &&& 0 <= offset
    &&& offset + RSDP_SIZE <= bytes.len()
    &&& bytes[offset] == 0x52 && bytes[offset + 1] == 0x53 && bytes[offset + 2] == 0x44 && bytes[offset
        + 3] == 0x20
    &&& bytes[offset + 4] == 0x50 && bytes[offset + 5] == 0x54 && bytes[offset + 6] == 0x52
        && bytes[offset + 7] == 0x20
    &&& bytes_sum(bytes, offset, RSDP_SIZE as nat) % 256 == 0
}

impl Rsdp {
    /// The root pointer that the 36 bytes from `offset` on hold.
    pub open spec fn at(bytes: Seq<u8>, offset: int) -> Rsdp {
        Rsdp {
            checksum: bytes[offset + 8],
            revision: bytes[offset + 15],
            rsdtPhyAddr: le_u32(bytes, offset + 16) as u32,
            length: le_u32(bytes, offset + 20) as u32,
            xsdtPhyAddr: le_u64(bytes, offset + 24) as u64,
            extChecksum: bytes[offset + 32],
        }
    }

    /// Whether the bytes from `offset` on are a root pointer.
    pub fn check(bytes: &[u8], offset: usize) -> (ok: bool)
        requires
            offset + RSDP_SIZE <= bytes@.len(),
        ensures
            ok == is_rsdp_at(bytes@, offset as int),
    {
        let _ = bytes.len();
        bytes[offset] == 0x52 && bytes[offset + 1] == 0x53 && bytes[offset + 2] == 0x44 && bytes[offset
            + 3] == 0x20 && bytes[offset + 4] == 0x50 && bytes[offset + 5] == 0x54 && bytes[offset
            + 6] == 0x52 && bytes[offset + 7] == 0x20 && checksum(bytes, offset, RSDP_SIZE) == 0
    }

    /// Reads the root pointer that the 36 bytes from `offset` on hold.
    pub fn read(bytes: &[u8], offset: usize) -> (rsdp: Rsdp)
        requires
            offset + RSDP_SIZE <= bytes@.len(),
        ensures
            rsdp == Self::at(bytes@, offset as int),
    {
        let _ = bytes.len();
        Rsdp {
            checksum: bytes[offset + 8],
            revision: bytes[offset + 15],
            rsdtPhyAddr: read_u32(bytes, offset + 16),
            length: read_u32(bytes, offset + 20),
            xsdtPhyAddr: read_u64(bytes, offset + 24),
            extChecksum: bytes[offset + 32],
        }
    }
}

/// The header with which every table starts.
#[allow(non_snake_case)]
#[derive(Debug, Clone, Copy, PartialEq, Eq, Structural)]
pub struct Header {
    pub signature: u32,
    pub length: u32,
    pub revision: u8,
    pub iemRevision: u32,
    pub aslCompilerRevision: u32,
}

/// The signature `"APIC"` of the table of interrupt controllers, read as a
/// number.
pub const APIC_SIGNATURE: u32 = 0x4349_5041;

impl Header {
    /// The header that the 36 bytes at the start of a table hold. The four
    /// letters of the signature are read as one number.
    pub open spec fn of(table: Seq<u8>) -> Header {
        Header {
            signature: le_u32(table, 0) as u32,
            length: le_u32(table, 4) as u32,
            revision: table[8],
            iemRevision: le_u32(table, 24) as u32,
            aslCompilerRevision: le_u32(table, 32) as u32,
        }
    }

    /// Reads the header of a table.
    pub fn read(table: &[u8]) -> (header: Header)
        requires
            table@.len() >= HEADER_SIZE,
        ensures
            header == Self::of(table@),
    {
        Header {
            signature: read_u32(table, 0),
            length: read_u32(table, 4),
            revision: table[8],
            iemRevision: read_u32(table, 24),
            aslCompilerRevision: read_u32(table, 32),
        }
    }
}

/// The root table: a header, and behind it the physical addresses of the
/// other tables, of 32 bits each.
#[derive(Debug, Clone, Copy, PartialEq, Eq, Structural)]
pub struct Rsdt {
    pub hdr: Header,
}

impl Rsdt {
    /// Reads the root table.
    pub fn read(table: &[u8]) -> (rsdt: Rsdt)
        requires
            table@.len() >= HEADER_SIZE,
        ensures
            rsdt.hdr == Header::of(table@),
    {
        Rsdt { hdr: Header::read(table) }
    }

    /// The number of addresses that the table holds: what its length leaves
    /// behind the header, in units of four bytes.
    pub fn entry_count(&self) -> (count: usize)
        requires
            self.hdr.length >= HEADER_SIZE,
        ensures
            count == (self.hdr.length - HEADER_SIZE) / 4,
    {
        (self.hdr.length as usize - HEADER_SIZE) / 4
    }

    /// The address with the number `id`, read from the bytes of the table.
    pub fn entry_at(&self, table: &[u8], id: usize) -> (address: u32)
        requires
            self.hdr.length >= HEADER_SIZE,
            id < (self.hdr.length - HEADER_SIZE) / 4,
            table@.len() >= self.hdr.length,
        ensures
            address == le_u32(table@, HEADER_SIZE + 4 * id),
    {
        read_u32(table, HEADER_SIZE + 4 * id)
    }
}

/// The table of interrupt controllers: a header, the address of the local
/// controllers, flags, and behind them one entry for each controller.
#[allow(non_snake_case)]
#[derive(Debug, Clone, Copy, PartialEq, Eq, Structural)]
pub struct Madt {
    pub hdr: Header,
    pub lapicAddr: u32,
    pub flags: u32,
}

/// An entry that is neither a local controller nor an I/O controller.
#[allow(non_camel_case_types)]
#[derive(Debug, Clone, Copy, PartialEq, Eq, Structural)]
pub struct MadtEntry_Unknown {
    pub typ: u8,
    pub length: u8,
}

/// The entry of the local interrupt controller of one processor.
#[allow(non_camel_case_types)]
#[allow(non_snake_case)]
#[derive(Debug, Clone, Copy, PartialEq, Eq, Structural)]
pub struct MadtEntry_LocalApic {
    pub typ: u8,
    pub length: u8,
    pub procID: u8,
    pub id: u8,
    pub lapicFlags: u32,
}

/// The entry of an I/O interrupt controller.
#[allow(non_camel_case_types)]
#[allow(non_snake_case)]
#[derive(Debug, Clone, Copy, PartialEq, Eq, Structural)]
pub struct MadtEntry_IoApic {
    pub typ: u8,
    pub length: u8,
    pub procID: u8,
    pub id: u8,
    pub lapicFlags: u32,
}

/// An entry of the table of interrupt controllers.
#[derive(Debug, Clone, Copy, PartialEq, Eq, Structural)]
pub enum MadtEntry {
    Unknown(MadtEntry_Unknown),
    LocalApic(MadtEntry_LocalApic),
    IoApic(MadtEntry_IoApic),
}

/// The end of the entries of a table of interrupt controllers: the length
/// that the header gives, or the end of the bytes where that comes first.
pub open spec fn entries_end(table: Seq<u8>) -> int {
    if le_u32(table, 4) < table.len() {
        le_u32(table, 4)
    } else {
        table.len() as int
    }
}

/// An entry starts at `position`: the two bytes that give its type and its
/// length lie before the end of the entries, its length is not zero, and
/// an entry of a controller has its eight bytes within the table.
pub open spec fn has_entry_at(table: Seq<u8>, position: int) -> bool {
    &&& MADT_SIZE <= position
    &&& position + 2 <= entries_end(table)
    &&& table[position + 1] != 0
    &&& table[position] <= 1 ==> position + 8 <= table.len()
}

/// The entry that starts at `position`, by its type: 0 is a local
/// controller, 1 an I/O controller.
pub open spec fn entry_at(table: Seq<u8>, position: int) -> MadtEntry {
    let typ = table[position];
    let length = table[position + 1];
    if typ == 0 {
        MadtEntry::LocalApic(
            MadtEntry_LocalApic {
                typ,
                length,
                procID: table[position + 2],
                id: table[position + 3],
                lapicFlags: le_u32(table, position + 4) as u32,
            },
        )
    } else if typ == 1 {
        MadtEntry::IoApic(
            MadtEntry_IoApic {
                typ,
                length,
                procID: table[position + 2],
                id: table[position + 3],
                lapicFlags: le_u32(table, position + 4) as u32,
            },
        )
    } else {
        MadtEntry::Unknown(MadtEntry_Unknown { typ, length })
    }
}

/// The entries from `position` on, in the order in which they lie in the
/// table. Each entry says how long it is, and the next one starts behind
/// it.
pub open spec fn entries_from(table: Seq<u8>, position: int) -> Seq<MadtEntry>
    decreases table.len() + 256 - position,
{
    if MADT_SIZE <= position && position + 2 <= table.len() && table[position + 1] > 0
        && has_entry_at(table, position) {
        let rest = entries_from(table, position + table[position + 1]);
        rest.insert(0, entry_at(table, position))
    } else {
        Seq::empty()
    }
}

impl Madt {
    /// The fixed part of the table that `table` holds.
    pub open spec fn of(table: Seq<u8>) -> Madt {
        Madt {
            hdr: Header::of(table),
            lapicAddr: le_u32(table, 36) as u32,
            flags: le_u32(table, 40) as u32,
        }
    }

    /// Whether the bytes are a table of interrupt controllers: the
    /// signature is `"APIC"`, and the length covers the fixed part.
    pub fn check(table: &[u8]) -> (ok: bool)
        requires
            table@.len() >= MADT_SIZE,
        ensures
            ok == (Self::of(table@).hdr.signature == APIC_SIGNATURE && Self::of(table@).hdr.length
                >= MADT_SIZE),
    {
        let hdr = Header::read(table);
        hdr.signature == APIC_SIGNATURE && hdr.length >= MADT_SIZE as u32
    }

    /// Reads the fixed part of the table.
    pub fn read(table: &[u8]) -> (madt: Madt)
        requires
            table@.len() >= MADT_SIZE,
        ensures
            madt == Self::of(table@),
    {
        Madt { hdr: Header::read(table), lapicAddr: read_u32(table, 36), flags: read_u32(table, 40) }
    }

    /// A walk over the entries of the table, which starts behind the fixed
    /// part.
    pub fn entry_iter(&self) -> (iter: MadtEntryIter)
        ensures
            iter.position == MADT_SIZE,
    {
        MadtEntryIter { position: MADT_SIZE }
    }

    /// The entries of the table, in the order in which they lie in it.
    pub fn entries(&self, table: &[u8]) -> (entries: Vec<MadtEntry>)
        requires
            table@.len() >= MADT_SIZE,
            table@.len() + 255 <= usize::MAX,
        ensures
            entries@ == entries_from(table@, MADT_SIZE as int),
    {
        let mut iter = self.entry_iter();
        let mut entries: Vec<MadtEntry> = Vec::new();
        loop
            invariant
                table@.len() >= MADT_SIZE,
                table@.len() + 255 <= usize::MAX,
                MADT_SIZE <= iter.position,
                iter.position <= table@.len() + 255,
                entries@ + entries_from(table@, iter.position as int) == entries_from(
                    table@,
                    MADT_SIZE as int,
                ),
            decreases table@.len() + 255 - iter.position,
        {
            let ghost before = iter.position as int;
            let ghost collected = entries@;
            match iter.next(table) {
                Some(entry) => {
                    entries.push(entry);
                    proof {
                        let rest = entries_from(table@, iter.position as int);
                        assert(entries_from(table@, before) == rest.insert(0, entry));
                        assert(entries@ + rest =~= collected + rest.insert(0, entry));
                    }
                },
                None => {
                    proof {
                        assert(collected + Seq::<MadtEntry>::empty() =~= collected);
                    }
                    return entries;
                },
            }
        }
    }
}

/// A walk over the entries of a table of interrupt controllers: the place
/// at which the next entry starts.
#[derive(Debug, Clone, Copy, PartialEq, Eq, Structural)]
pub struct MadtEntryIter {
    pub position: usize,
}

impl MadtEntryIter {
    /// Hands out the entry at which the walk stands and goes on to the
    /// next, or hands out `None` at the end of the entries.
    pub fn next(&mut self, table: &[u8]) -> (entry: Option<MadtEntry>)
        requires
            MADT_SIZE <= old(self).position,
            table@.len() >= MADT_SIZE,
            table@.len() + 255 <= usize::MAX,
        ensures
            entry.is_some() == has_entry_at(table@, old(self).position as int),
            has_entry_at(table@, old(self).position as int) ==> entry == Some(
                entry_at(table@, old(self).position as int),
            ) && final(self).position == old(self).position + table@[old(self).position + 1]
                && final(self).position > old(self).position,
            !has_entry_at(table@, old(self).position as int) ==> entry.is_none() && *final(self)
                == *old(self),
    {
        let length = read_u32(table, 4) as usize;
        let end = if length < table.len() {
            length
        } else {
            table.len()
        };
        let position = self.position;
        if position >= end || end - position < 2 {
            return None;
        }
        let typ = table[position];
        let length = table[position + 1];
        if length == 0 || (typ <= 1 && table.len() - position < 8) {
            return None;
        }
        let entry = if typ == 0 {
            MadtEntry::LocalApic(
                MadtEntry_LocalApic {
                    typ,
                    length,
                    procID: table[position + 2],
                    id: table[position + 3],
                    lapicFlags: read_u32(table, position + 4),
                },
            )
        } else if typ == 1 {
            MadtEntry::IoApic(
                MadtEntry_IoApic {
                    typ,
                    length,
                    procID: table[position + 2],
                    id: table[position + 3],
                    lapicFlags: read_u32(table, position + 4),
                },
            )
        } else {
            MadtEntry::Unknown(MadtEntry_Unknown { typ, length })
        };
        self.position = position + length as usize;
        Some(entry)
    }
}

} // verus!
