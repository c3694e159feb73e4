use rucore::gdt::{
    init, Descriptor, Gdt, KCODE, KCODE_SELECTOR, KDATA, KDATA_SELECTOR, TSS_SELECTOR, UCODE,
    UCODE32, UCODE_SELECTOR, UDATA, UDATA32, UDATA_SELECTOR,
};

#[test]
fn kernel_code_segment_flags() {
    assert_eq!(Descriptor::kernel_code_segment(), Descriptor::UserSegment(0x0020980000000000));
}

#[test]
fn entries_fill_the_table_from_slot_one() {
    let mut gdt = Gdt::new();
    assert_eq!(gdt.get(0), 0);
    assert_eq!(gdt.add_entry(Descriptor::UserSegment(KCODE)), 1 << 3);
    assert_eq!(gdt.add_entry(Descriptor::SystemSegment(0x11, 0x22)), 2 << 3);
    assert_eq!(gdt.add_entry(Descriptor::UserSegment(KDATA)), 4 << 3);
    assert_eq!(gdt.push(0x33), 5);
    assert_eq!(
        (0..10).map(|i| gdt.get(i)).collect::<Vec<u64>>(),
        vec![0, KCODE, 0x11, 0x22, KDATA, 0x33, 0, 0, 0, 0]
    );
    assert_eq!(gdt.limit(), 79);
}

#[test]
fn tss_descriptor_holds_base_and_limit() {
    assert_eq!(
        Descriptor::tss_segment(0x1234_5678_9abc_def0),
        Descriptor::SystemSegment(0x9a00_89bc_def0_0067, 0x1234_5678)
    );
    assert_eq!(Descriptor::tss_segment(0), Descriptor::SystemSegment(0x0000_8900_0000_0067, 0));
    assert_eq!(
        Descriptor::tss_segment(u64::MAX),
        Descriptor::SystemSegment(0xff00_89ff_ffff_0067, 0xffff_ffff)
    );
}

#[test]
fn kernel_table() {
    let (gdt, tss_selector) = init(0xffff_ff00_0012_3000);
    assert_eq!(tss_selector, 7 << 3);
    assert_eq!(
        (0..10).map(|i| gdt.get(i)).collect::<Vec<u64>>(),
        vec![
            0,
            KCODE,
            UCODE,
            KDATA,
            UDATA,
            UCODE32,
            UDATA32,
            0x0000_8912_3000_0067,
            0xffff_ff00,
            0
        ]
    );
}

#[test]
fn selectors() {
    assert_eq!(KCODE_SELECTOR, 0x10);
    assert_eq!(UCODE_SELECTOR, 0x1b);
    assert_eq!(KDATA_SELECTOR, 0x20);
    assert_eq!(UDATA_SELECTOR, 0x2b);
    assert_eq!(TSS_SELECTOR, 0x30);
}
