use rucore::acpi::structure::{
    checksum, read_u32, read_u64, Header, Madt, MadtEntry, MadtEntry_IoApic, MadtEntry_LocalApic,
    MadtEntry_Unknown, Rsdp, Rsdt, APIC_SIGNATURE,
};
use rucore::acpi::{config_SMP, find_rsdp, init, ACPI_Error};

fn rsdp_bytes(rsdt: u32) -> Vec<u8> {
    let mut bytes = vec![0u8; 36];
    bytes[..8].copy_from_slice(b"RSD PTR ");
    bytes[15] = 2;
    bytes[16..20].copy_from_slice(&rsdt.to_le_bytes());
    bytes[20..24].copy_from_slice(&36u32.to_le_bytes());
    bytes[24..32].copy_from_slice(&0x1122_3344_5566_7788u64.to_le_bytes());
    let sum: u32 = bytes.iter().map(|b| *b as u32).sum();
    bytes[8] = (256 - sum % 256) as u8;
    bytes
}

fn header(signature: &[u8; 4], length: u32) -> Vec<u8> {
    let mut bytes = vec![0u8; 36];
    bytes[..4].copy_from_slice(signature);
    bytes[4..8].copy_from_slice(&length.to_le_bytes());
    bytes[8] = 1;
    bytes
}

fn madt(entries: &[&[u8]]) -> Vec<u8> {
    let length = 44 + entries.iter().map(|e| e.len()).sum::<usize>();
    let mut bytes = header(b"APIC", length as u32);
    bytes.extend_from_slice(&0xfee0_0000u32.to_le_bytes());
    bytes.extend_from_slice(&1u32.to_le_bytes());
    for entry in entries {
        bytes.extend_from_slice(entry);
    }
    bytes
}

fn rsdt(entries: &[u32]) -> Vec<u8> {
    let mut bytes = header(b"RSDT", 36 + 4 * entries.len() as u32);
    for entry in entries {
        bytes.extend_from_slice(&entry.to_le_bytes());
    }
    bytes
}

const CPU0: [u8; 8] = [0, 8, 0, 0, 1, 0, 0, 0];
const CPU1: [u8; 8] = [0, 8, 1, 3, 1, 0, 0, 0];
const IOAPIC: [u8; 12] = [1, 12, 0, 9, 0, 0, 0xc0, 0xfe, 0, 0, 0, 0];
const OVERRIDE: [u8; 10] = [2, 10, 0, 0, 2, 0, 0, 0, 0, 0];

#[test]
fn little_endian_numbers() {
    let bytes = [0x78, 0x56, 0x34, 0x12, 0xf0, 0xde, 0xbc, 0x9a, 0xff];
    assert_eq!(read_u32(&bytes, 0), 0x1234_5678);
    assert_eq!(read_u32(&bytes, 4), 0x9abc_def0);
    assert_eq!(read_u32(&bytes, 5), 0xff9a_bcde);
    assert_eq!(read_u64(&bytes, 0), 0x9abc_def0_1234_5678);
    assert_eq!(checksum(&bytes, 0, 0), 0);
    assert_eq!(checksum(&bytes, 0, 4), (0x78 + 0x56 + 0x34 + 0x12) as u8);
    assert_eq!(checksum(&[0xff, 0xff, 0x03], 0, 3), 1);
}

#[test]
fn root_pointer_is_found() {
    let mut memory = vec![0u8; 200];
    assert_eq!(find_rsdp(&memory), None);
    memory[100..136].copy_from_slice(&rsdp_bytes(0x7fe1000));
    assert_eq!(find_rsdp(&memory), Some(100));
    assert!(Rsdp::check(&memory, 100));
    assert!(!Rsdp::check(&memory, 96));
    let rsdp = Rsdp::read(&memory, 100);
    assert_eq!(rsdp.rsdtPhyAddr, 0x7fe1000);
    assert_eq!(rsdp.revision, 2);
    assert_eq!(rsdp.length, 36);
    assert_eq!(rsdp.xsdtPhyAddr, 0x1122_3344_5566_7788);
    // A wrong sum, and a place that is no multiple of four.
    memory[110] ^= 1;
    assert_eq!(find_rsdp(&memory), None);
    let mut shifted = vec![0u8; 200];
    shifted[6..42].copy_from_slice(&rsdp_bytes(1));
    assert_eq!(find_rsdp(&shifted), None);
    // The first of two counts.
    let mut two = vec![0u8; 200];
    two[40..76].copy_from_slice(&rsdp_bytes(1));
    two[120..156].copy_from_slice(&rsdp_bytes(2));
    assert_eq!(find_rsdp(&two), Some(40));
    assert_eq!(find_rsdp(&two[..75]), None);
    assert_eq!(find_rsdp(&rsdp_bytes(3)), Some(0));
}

#[test]
fn root_table_entries() {
    let bytes = rsdt(&[0x1000, 0x2000, 0x7fff_0000]);
    let root = Rsdt::read(&bytes);
    assert_eq!(root.hdr, Header::read(&bytes));
    assert_eq!(root.hdr.length, 48);
    assert_eq!(root.entry_count(), 3);
    assert_eq!(root.entry_at(&bytes, 0), 0x1000);
    assert_eq!(root.entry_at(&bytes, 2), 0x7fff_0000);
    assert_eq!(Rsdt::read(&rsdt(&[])).entry_count(), 0);
}

#[test]
fn interrupt_controller_entries() {
    let bytes = madt(&[&CPU0, &OVERRIDE, &IOAPIC, &CPU1]);
    assert!(Madt::check(&bytes));
    assert!(!Madt::check(&rsdt(&[1, 2])));
    let table = Madt::read(&bytes);
    assert_eq!(table.hdr.signature, APIC_SIGNATURE);
    assert_eq!(table.lapicAddr, 0xfee0_0000);
    assert_eq!(table.flags, 1);
    let entries = table.entries(&bytes);
    assert_eq!(
        entries,
        vec![
            MadtEntry::LocalApic(MadtEntry_LocalApic { typ: 0, length: 8, procID: 0, id: 0, lapicFlags: 1 }),
            MadtEntry::Unknown(MadtEntry_Unknown { typ: 2, length: 10 }),
            MadtEntry::IoApic(MadtEntry_IoApic { typ: 1, length: 12, procID: 0, id: 9, lapicFlags: 0xfec0_0000 }),
            MadtEntry::LocalApic(MadtEntry_LocalApic { typ: 0, length: 8, procID: 1, id: 3, lapicFlags: 1 }),
        ]
    );
    let mut iter = table.entry_iter();
    assert_eq!(iter.position, 44);
    assert!(iter.next(&bytes).is_some());
    assert_eq!(iter.position, 52);
    assert!(table.entries(&madt(&[])).is_empty());
    // An entry without length ends the walk, and so does the length of
    // the table.
    let broken = madt(&[&CPU0, &[7, 0, 0, 0], &CPU1]);
    assert_eq!(table.entries(&broken).len(), 1);
    let mut short = madt(&[&CPU0, &CPU1]);
    short[4] = 52;
    assert_eq!(Madt::read(&short).entries(&short).len(), 1);
}

#[test]
fn processors_and_io_controller() {
    let bytes = madt(&[&CPU0, &OVERRIDE, &IOAPIC, &CPU1]);
    let table = Madt::read(&bytes);
    let found = config_SMP(table.lapicAddr, &table.entries(&bytes)).unwrap();
    assert_eq!(found.cpu_num, 2);
    assert_eq!(found.cpu_acpi_ids, [0, 3, 0, 0, 0, 0, 0, 0]);
    assert_eq!(found.ioapic_id, 9);
    assert_eq!(found.lapic_addr, 0xfee0_0000);
    let none = madt(&[&CPU0, &CPU1]);
    assert_eq!(config_SMP(0, &Madt::read(&none).entries(&none)), Err(ACPI_Error::IOACPI_NotFound));
    // The controller that is named last counts.
    let other: [u8; 12] = [1, 12, 0, 4, 0, 0, 0, 0, 0, 0, 0, 0];
    let two = madt(&[&IOAPIC, &other]);
    assert_eq!(config_SMP(0, &Madt::read(&two).entries(&two)).unwrap().ioapic_id, 4);
}

#[test]
fn tables_are_read_from_the_root() {
    let rsdp = Rsdp::read(&rsdp_bytes(0x7fe1000), 0);
    let root = rsdt(&[0x7fe2000, 0x7fe3000]);
    let tables = vec![header(b"FACP", 36), madt(&[&CPU0, &IOAPIC])];
    let found = init(&rsdp, &root, &tables).unwrap();
    assert_eq!((found.cpu_num, found.ioapic_id, found.lapic_addr), (1, 9, 0xfee0_0000));
    // No table of interrupt controllers.
    let none = vec![header(b"FACP", 36), header(b"HPET", 36)];
    assert_eq!(init(&rsdp, &root, &none), Err(ACPI_Error::IOACPI_NotFound));
    // Tables beyond the memory that can be read.
    let far = Rsdp::read(&rsdp_bytes(0x8000_0001), 0);
    assert_eq!(init(&far, &root, &tables), Err(ACPI_Error::NotMapped));
    let high = rsdt(&[0x7fe2000, 0x9000_0000]);
    assert_eq!(init(&rsdp, &high, &tables), Err(ACPI_Error::NotMapped));
    let limit = Rsdp::read(&rsdp_bytes(0x8000_0000), 0);
    assert!(init(&limit, &root, &tables).is_ok());
}
