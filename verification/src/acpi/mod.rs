//! What the kernel learns from ACPI: the processors and the interrupt
//! controllers of the machine.

use vstd::prelude::*;

pub mod structure;

use self::structure::{
    entries_from, is_rsdp_at, le_u32, Header, Madt, MadtEntry, Rsdp, Rsdt, APIC_SIGNATURE,
    HEADER_SIZE, MADT_SIZE, RSDP_SIZE,
};
use crate::consts::MAX_CPU_NUM;

verus! {

/// The highest physical address at which a table can be read.
pub const PHY_MEMORY_LIMIT: u32 = 0x80000000;

/// What ACPI says of the machine: the number of processors, the numbers of
/// their local interrupt controllers, the number of the I/O interrupt
/// controller, and the address of the local controllers.
#[allow(non_camel_case_types)]
#[derive(Debug, Clone, Copy, PartialEq, Eq)]
pub struct ACPI_Result {
    pub cpu_num: u8,
    pub cpu_acpi_ids: [u8; 8],
    pub ioapic_id: u8,
    pub lapic_addr: u64,
}

/// Why the tables could not be used.
#[allow(non_camel_case_types)]
#[derive(Debug, Clone, Copy, PartialEq, Eq, Structural)]
pub enum ACPI_Error {
    /// A table lies beyond the memory that can be read.
    NotMapped,
    /// The tables name no I/O interrupt controller.
    IOACPI_NotFound,
}

/// The numbers of the local controllers among the entries, in the order of
/// the entries.
pub open spec fn local_apic_ids(entries: Seq<MadtEntry>) -> Seq<u8>
    decreases entries.len(),
{
    if entries.len() == 0 {
        Seq::empty()
    } else {
        let rest = local_apic_ids(entries.drop_last());
        match entries.last() {
            MadtEntry::LocalApic(lapic) => rest.push(lapic.id),
            _ => rest,
        }
    }
}

/// The number of the I/O controller that the entries name last, if they
/// name any.
pub open spec fn last_ioapic_id(entries: Seq<MadtEntry>) -> Option<u8>
    decreases entries.len(),
{
    if entries.len() == 0 {
        None
    } else {
        match entries.last() {
            MadtEntry::IoApic(ioapic) => Some(ioapic.id),
            _ => last_ioapic_id(entries.drop_last()),
        }
    }
}

/// Gathers from the entries of the table of interrupt controllers what the
/// kernel needs to start the processors: every local controller stands for
/// a processor, and the I/O controller that is named last is the one that
/// is used. Without an I/O controller there is no result.
///
/// The kernel keeps the numbers of as many local controllers as it can run
/// processors; the entries must not name more.
#[allow(non_snake_case)]
pub fn config_SMP(lapic_addr: u32, entries: &Vec<MadtEntry>) -> (result: Result<ACPI_Result, ACPI_Error>)
    requires
        local_apic_ids(entries@).len() <= MAX_CPU_NUM,
    ensures
        match result {
            Ok(found) => {
                &&& last_ioapic_id(entries@) == Some(found.ioapic_id)
                &&& found.cpu_num == local_apic_ids(entries@).len()
                &&& found.lapic_addr == lapic_addr
                &&& forall|i: int|
                    0 <= i < MAX_CPU_NUM ==> found.cpu_acpi_ids@[i] == if i < local_apic_ids(
                        entries@,
                    ).len() {
                        local_apic_ids(entries@)[i]
                    } else {
                        0u8
                    }
            },
            Err(e) => e == ACPI_Error::IOACPI_NotFound && last_ioapic_id(entries@).is_none(),
        },
{
    let mut cpu_num: u8 = 0;
    let mut cpu_acpi_ids: [u8; 8] = [0;8];
    let mut ioapic_id: Option<u8> = None;
    let mut i: usize = 0;
    while i < entries.len()
        invariant
            i <= entries@.len(),
            local_apic_ids(entries@).len() <= MAX_CPU_NUM,
            cpu_num == local_apic_ids(entries@.take(i as int)).len(),
            ioapic_id == last_ioapic_id(entries@.take(i as int)),
            forall|k: int|
                0 <= k < MAX_CPU_NUM ==> cpu_acpi_ids@[k] == if k < cpu_num {
                    local_apic_ids(entries@.take(i as int))[k]
                } else {
                    0u8
                },
        decreases entries@.len() - i,
    {
        proof {
            assert(entries@.take(i + 1).drop_last() =~= entries@.take(i as int));
            assert(entries@.take(i + 1).last() == entries@[i as int]);
            lemma_local_apic_ids_grow(entries@, i + 1);
        }
        match entries[i] {
            MadtEntry::LocalApic(lapic) => {
                cpu_acpi_ids[cpu_num as usize] = lapic.id;
                cpu_num += 1;
            },
            MadtEntry::IoApic(ioapic) => {
                ioapic_id = Some(ioapic.id);
            },
            _ => {},
        }
        i += 1;
    }
    proof {
        assert(entries@.take(entries@.len() as int) =~= entries@);
    }
    match ioapic_id {
        None => Err(ACPI_Error::IOACPI_NotFound),
        Some(ioapic_id) => Ok(
            ACPI_Result { cpu_num, cpu_acpi_ids, ioapic_id, lapic_addr: lapic_addr as u64 },
        ),
    }
}

/// The first `n` entries name at most as many local controllers as all of
/// them.
pub proof fn lemma_local_apic_ids_grow(entries: Seq<MadtEntry>, n: int)
    requires
        0 <= n <= entries.len(),
    ensures
        local_apic_ids(entries.take(n)).len() <= local_apic_ids(entries).len(),
    decreases entries.len() - n,
{
    if n < entries.len() {
        assert(entries.take(n + 1).drop_last() =~= entries.take(n));
        lemma_local_apic_ids_grow(entries, n + 1);
    } else {
        assert(entries.take(n) =~= entries);
    }
}

/// The place of the first root pointer in `memory`, where only places
/// that are multiples of four count; `None` where there is none.
pub fn find_rsdp(memory: &[u8]) -> (place: Option<usize>)
    ensures
        match place {
            Some(offset) => offset % 4 == 0 && is_rsdp_at(memory@, offset as int) && forall|o: int|
                0 <= o < offset && o % 4 == 0 ==> !#[trigger] is_rsdp_at(memory@, o),
            None => forall|o: int| 0 <= o && o % 4 == 0 ==> !#[trigger] is_rsdp_at(memory@, o),
        },
{
    let _ = memory.len();
    let mut offset: usize = 0;
    while offset <= usize::MAX - RSDP_SIZE && offset + RSDP_SIZE <= memory.len()
        invariant
            offset % 4 == 0,
            memory@.len() <= usize::MAX,
            forall|o: int| 0 <= o < offset && o % 4 == 0 ==> !#[trigger] is_rsdp_at(memory@, o),
        decreases memory@.len() - offset,
    {
        if Rsdp::check(memory, offset) {
            return Some(offset);
        }
        offset += 4;
    }
    None
}

/// The index of the first table among `tables` that is a table of
/// interrupt controllers, if there is one.
pub open spec fn first_madt(tables: Seq<Vec<u8>>, n: int) -> Option<int>
    decreases n,
{
    if n <= 0 {
        None
    } else {
        match first_madt(tables, n - 1) {
            Some(i) => Some(i),
            None => if tables[n - 1]@.len() >= MADT_SIZE && le_u32(tables[n - 1]@, 0)
                == APIC_SIGNATURE {
                Some(n - 1)
            } else {
                None
            },
        }
    }
}

/// Whether every address that counts lies within the memory that can be
/// read: that of the root table, and those that the root table holds.
pub open spec fn all_mapped(rsdp: Rsdp, rsdt: Seq<u8>, count: int) -> bool {
    rsdp.rsdtPhyAddr <= PHY_MEMORY_LIMIT && forall|id: int|
        0 <= id < count ==> #[trigger] le_u32(rsdt, HEADER_SIZE + 4 * id) <= PHY_MEMORY_LIMIT
}

/// Reads what ACPI says of the machine.
///
/// `rsdp` is the root pointer, `rsdt` the bytes of the root table that it
/// points to, and `tables` the bytes of the tables that the root table
/// points to, in the order of its entries. The first of them that is a
/// table of interrupt controllers is read.
///
/// The call fails with `NotMapped` where the root table or one of the
/// tables lies beyond the memory that can be read, and with
/// `IOACPI_NotFound` where there is no table of interrupt controllers or
/// where it names no I/O controller.
pub fn init(rsdp: &Rsdp, rsdt: &[u8], tables: &Vec<Vec<u8>>) -> (result: Result<ACPI_Result, ACPI_Error>)
    requires
        rsdt@.len() >= HEADER_SIZE,
        le_u32(rsdt@, 4) >= HEADER_SIZE,
        rsdt@.len() >= le_u32(rsdt@, 4),
        tables@.len() == (le_u32(rsdt@, 4) - HEADER_SIZE) / 4,
        forall|i: int| 0 <= i < tables@.len() ==> (#[trigger] tables@[i])@.len() + 255 <= usize::MAX,
        forall|i: int|
            0 <= i < tables@.len() && (#[trigger] tables@[i])@.len() >= MADT_SIZE ==> local_apic_ids(
                entries_from(tables@[i]@, MADT_SIZE as int),
            ).len() <= MAX_CPU_NUM,
    ensures
        !all_mapped(*rsdp, rsdt@, tables@.len() as int) ==> result == Err::<ACPI_Result, ACPI_Error>(
            ACPI_Error::NotMapped,
        ),
        all_mapped(*rsdp, rsdt@, tables@.len() as int) ==> match first_madt(
            tables@,
            tables@.len() as int,
        ) {
            None => result == Err::<ACPI_Result, ACPI_Error>(ACPI_Error::IOACPI_NotFound),
            Some(i) => {
                let entries = entries_from(tables@[i]@, MADT_SIZE as int);
                match result {
                    Ok(found) => {
                        &&& last_ioapic_id(entries) == Some(found.ioapic_id)
                        &&& found.cpu_num == local_apic_ids(entries).len()
                        &&& found.lapic_addr == le_u32(tables@[i]@, 36)
                    },
                    Err(e) => e == ACPI_Error::IOACPI_NotFound && last_ioapic_id(entries).is_none(),
                }
            },
        },
{
    if rsdp.rsdtPhyAddr > PHY_MEMORY_LIMIT {
        return Err(ACPI_Error::NotMapped);
    }
    let root = Rsdt::read(rsdt);
    let count = root.entry_count();
    let mut madt: Option<usize> = None;
    let mut i: usize = 0;
    while i < count
        invariant
            i <= count,
            count == tables@.len(),
            count == (root.hdr.length - HEADER_SIZE) / 4,
            root.hdr.length >= HEADER_SIZE,
            rsdt@.len() >= root.hdr.length,
            forall|id: int| 0 <= id < i ==> #[trigger] le_u32(rsdt@, HEADER_SIZE + 4 * id) <= PHY_MEMORY_LIMIT,
            match madt {
                Some(m) => first_madt(tables@, i as int) == Some(m as int) && m < i,
                None => first_madt(tables@, i as int).is_none(),
            },
        decreases count - i,
    {
        let entry = root.entry_at(rsdt, i);
        if entry > PHY_MEMORY_LIMIT {
            return Err(ACPI_Error::NotMapped);
        }
        if madt.is_none() && tables[i].len() >= MADT_SIZE {
            let hdr = Header::read(tables[i].as_slice());
            if hdr.signature == APIC_SIGNATURE {
                madt = Some(i);
            }
        }
        i += 1;
    }
    match madt {
        None => Err(ACPI_Error::IOACPI_NotFound),
        Some(m) => {
            proof {
                lemma_first_madt_is_one(tables@, count as int);
            }
            let table = tables[m].as_slice();
            let fixed = Madt::read(table);
            let entries = fixed.entries(table);
            config_SMP(fixed.lapicAddr, &entries)
        },
    }
}

/// The first table of interrupt controllers is one of the tables and long
/// enough to be one.
pub proof fn lemma_first_madt_is_one(tables: Seq<Vec<u8>>, n: int)
    requires
        0 <= n <= tables.len(),
    ensures
        first_madt(tables, n) matches Some(i) ==> 0 <= i < n && tables[i]@.len() >= MADT_SIZE,
    decreases n,
{
    if n > 0 {
        lemma_first_madt_is_one(tables, n - 1);
    }
}

} // verus!
