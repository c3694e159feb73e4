use rucore::ata::io::{base_of, ctrl_of, sector_words, DmaController};
use rucore::ata::AtaVolume;
use rucore::interrupts::irq::{
    enable_irq, is_handled, rust_trap, set_return_rsp, to_kernel, to_user, IrqController, IrqSource,
    Timer, Trap,
};
use rucore::interrupts::trapframe::TrapFrame;
use rucore::metadevs::storage::{
    best_mapper, DataPtr, IoError, LogicalVolume, PhysBlocks, PhysicalRegion, PhysicalVolumeInfo,
    SizePrinter, SizeUnit, VolOpenError, VolumeHandle, WriteChunk,
};
use rucore::ps2::i8042::{self, ControllerWrite, Ctrlr8042, Port, Ports};
use rucore::ps2::keyboard::KeyEvent;
use rucore::ps2::keycodes::KeyCode;
use rucore::ps2::PS2Dev;
use rucore::mylib::once::Once;
use rucore::serial::{self, PortWrite, SerialPort};
use rucore::vfs::mount::{
    check_mountpoint, choose_driver, Filesystem, Handle, MountError, NullFs, SelfHandle,
};
use rucore::vfs::ramfs::{check_insert, DiskMap, Extent};
use rucore::vfs::Error;

fn w(port: u16, value: u8) -> PortWrite {
    PortWrite { port, value }
}

#[test]
fn serial_port_registers() {
    let mut once = Once::new();
    assert!(!once.has_been_called());
    let setup = serial::init(false, &mut once);
    assert!(once.has_been_called());
    let (com1, com2) = (setup.com1, setup.com2);
    assert_eq!(com1, SerialPort::new(0x3F8));
    assert_eq!(com2, SerialPort::new(0x2F8));
    // first the first port is set up, then the second
    assert_eq!(setup.writes.len(), 16);
    assert_eq!(setup.writes[..8].to_vec(), com1.init());
    assert_eq!(setup.writes[8..].to_vec(), com2.init());
    assert_eq!(setup.writes[15], w(0x2F9, 0x01));
    assert_eq!(setup.irqs, vec![IrqController::Pic { irq: 4 }, IrqController::Pic { irq: 3 }]);
    assert_eq!(
        serial::init(true, &mut Once::new()).irqs,
        vec![IrqController::IoApic { irq: 4, cpu: 0 }, IrqController::IoApic { irq: 3, cpu: 0 }]
    );
    assert_eq!(com2.data, 0x2F8);
    assert_eq!(
        (com1.data, com1.int_en, com1.fifo_ctrl, com1.line_ctrl, com1.modem_ctrl, com1.line_sts, com1.modem_sts),
        (0x3F8, 0x3F9, 0x3FA, 0x3FB, 0x3FC, 0x3FD, 0x3FE)
    );
    assert_eq!(
        com1.init(),
        vec![
            w(0x3F9, 0x00),
            w(0x3FB, 0x80),
            w(0x3F8, 0x03),
            w(0x3F9, 0x00),
            w(0x3FB, 0x03),
            w(0x3FA, 0xC7),
            w(0x3FC, 0x0B),
            w(0x3F9, 0x01)
        ]
    );
}

#[test]
fn serial_port_sends() {
    let port = SerialPort::new(0x3F8);
    assert_eq!(port.send(b'a'), vec![b'a']);
    assert_eq!(port.send(8), vec![8, b' ', 8]);
    assert_eq!(port.send(0x7F), vec![8, b' ', 8]);
    assert_eq!(port.send(0), vec![0]);
    assert_eq!(port.write_str(b"ab\x7fc"), vec![b'a', b'b', 8, b' ', 8, b'c']);
    assert_eq!(port.write_str(b""), Vec::<u8>::new());
    assert!(port.receive(0x01));
    assert!(port.receive(0x61));
    assert!(!port.receive(0x60));
    assert!(port.wait(0x20));
    assert!(!port.wait(0x01));
}

#[test]
fn ata_registers() {
    assert_eq!((base_of(0), base_of(2), base_of(3)), (0x1F0, 0x1F0, 0x170));
    assert_eq!((ctrl_of(1), ctrl_of(3)), (0x3F4, 0x374));
    assert_eq!(sector_words(0), (0, 128));
    assert_eq!(sector_words(3), (384, 512));
    let controller = DmaController { name: "ATA".to_string() };
    let read = controller.do_dma_rd(0x0123_4567, 2, 256, 1).unwrap();
    assert_eq!(
        read.commands,
        vec![
            w(0x3F6, 0),
            w(0x1F2, 2),
            w(0x1F3, 0x67),
            w(0x1F4, 0x45),
            w(0x1F5, 0x23),
            w(0x1F6, 0xF1),
            w(0x1F7, 0x20)
        ]
    );
    assert_eq!((read.data_port, read.sectors, read.write, read.reported), (0x1F0, 2, false, 0));
    let write = controller.do_dma_wr(7, 300, 300 * 128, 3).unwrap();
    assert_eq!(
        write.commands,
        vec![
            w(0x376, 0),
            w(0x172, 44),
            w(0x173, 7),
            w(0x174, 0),
            w(0x175, 0),
            w(0x176, 0xF0),
            w(0x177, 0x30)
        ]
    );
    assert_eq!((write.data_port, write.sectors, write.write), (0x170, 44, true));
    assert!(controller.ide_busy(0x80));
    assert!(!controller.ide_busy(0x40));
    assert_eq!(controller.ide_wait_ready(0x01, 1), 1);
    assert_eq!(controller.ide_wait_ready(0x20, 1), 1);
    assert_eq!(controller.ide_wait_ready(0x21, 0), 0);
    assert_eq!(controller.ide_wait_ready(0x40, 1), 0);
    assert!(controller.ide_present(0x40, 0));
    assert!(!controller.ide_present(0, 0));
    assert!(!controller.ide_present(0x40, 1));
    assert_eq!(
        controller.ide_init(),
        vec![
            (w(0x1F6, 0xE0), w(0x1F7, 0xEC)),
            (w(0x1F6, 0xF0), w(0x1F7, 0xEC)),
            (w(0x1F6, 0xE0), w(0x1F7, 0xEC)),
            (w(0x176, 0xF0), w(0x177, 0xEC))
        ]
    );
}

#[test]
fn ata_volume() {
    let mut volume = AtaVolume::new("sata".to_string(), 0, 2048);
    assert_eq!(volume.name(), "sata");
    assert_eq!(volume.controller.name, "sata");
    assert_eq!(volume.blocksize(), 128);
    assert_eq!(volume.capacity(), Some(2048));
    assert_eq!(volume.wipe(0, 10), Ok(()));
    assert_eq!(volume.init().len(), 4);
    let read = volume.read(0, 5, 1, 128).unwrap();
    assert_eq!(read.commands[1], w(0x1F2, 1));
    assert_eq!(read.commands[2], w(0x1F3, 5));
    assert_eq!(read.commands[6], w(0x1F7, 0x20));
    volume.init2("other".to_string(), 3, 10);
    assert_eq!((volume.name(), volume.disk, volume.size), ("other", 3, 10));
    let write = volume.write(0, 5, 1, 128).unwrap();
    assert_eq!(write.commands[6], w(0x177, 0x30));
}

fn volume(regions: Vec<PhysicalRegion>) -> VolumeHandle {
    VolumeHandle {
        handle: LogicalVolume {
            index: 3,
            name: "lv".to_string(),
            is_opened: false,
            block_size: 512,
            chunk_size: None,
            regions,
        },
    }
}

fn region(volume: usize, block_count: usize, first_block: u64) -> PhysicalRegion {
    PhysicalRegion { volume, block_count, first_block }
}

#[test]
fn logical_blocks_are_found_in_the_regions() {
    let lv = volume(vec![region(1, 10, 100), region(2, 5, 0), region(1, 20, 500)]);
    assert_eq!((lv.idx(), lv.name(), lv.block_size()), (3, "lv", 512));
    assert_eq!(lv.get_phys_block(0, 4), Some(PhysBlocks { volume: 1, block: 100, count: 4 }));
    assert_eq!(lv.get_phys_block(8, 4), Some(PhysBlocks { volume: 1, block: 108, count: 2 }));
    assert_eq!(lv.get_phys_block(10, 100), Some(PhysBlocks { volume: 2, block: 0, count: 5 }));
    assert_eq!(lv.get_phys_block(34, 100), Some(PhysBlocks { volume: 1, block: 519, count: 1 }));
    assert_eq!(lv.get_phys_block(35, 1), None);
    assert_eq!(lv.get_phys_block(3, 0), Some(PhysBlocks { volume: 1, block: 103, count: 0 }));
    assert_eq!(VolumeHandle::new_ramdisk(7).get_phys_block(0, 1), None);
}

#[test]
fn requests_are_cut_at_the_regions() {
    let lv = volume(vec![region(1, 10, 100), region(2, 5, 0), region(1, 20, 500)]);
    assert_eq!(
        lv.plan_blocks(8, 512 * 10),
        Ok(vec![
            PhysBlocks { volume: 1, block: 108, count: 2 },
            PhysBlocks { volume: 2, block: 0, count: 5 },
            PhysBlocks { volume: 1, block: 500, count: 3 }
        ])
    );
    assert_eq!(lv.plan_blocks(0, 0), Ok(vec![]));
    assert_eq!(lv.plan_blocks(0, 100), Err(IoError::InvalidParameter));
    assert_eq!(lv.plan_blocks(30, 512 * 6), Err(IoError::BadAddr));
    assert_eq!(lv.plan_blocks(35, 512), Err(IoError::BadAddr));
    assert_eq!(lv.plan_blocks(30, 512 * 5).unwrap().len(), 1);
}

#[test]
fn writes_go_in_steps_of_32_blocks() {
    let pv = PhysicalVolumeInfo { block_size: 512 };
    assert_eq!(pv.max_blocks_per_read(), 32);
    assert_eq!(pv.write(7, 0), (vec![], 0));
    assert_eq!(pv.write(7, 512), (vec![WriteChunk { block: 7, start: 0, end: 512 }], 1));
    assert_eq!(pv.write(7, 16384), (vec![WriteChunk { block: 7, start: 0, end: 16384 }], 32));
    assert_eq!(
        pv.write(7, 16384 * 2 + 1024),
        (
            vec![
                WriteChunk { block: 7, start: 0, end: 16384 },
                WriteChunk { block: 39, start: 16384, end: 32768 },
                WriteChunk { block: 71, start: 32768, end: 33792 }
            ],
            66
        )
    );
}

#[test]
fn sizes_are_printed_in_units() {
    assert_eq!(SizePrinter(0).parts(), (0, SizeUnit::B));
    assert_eq!(SizePrinter(4095).parts(), (4095, SizeUnit::B));
    assert_eq!(SizePrinter(4096).parts(), (4, SizeUnit::KiB));
    assert_eq!(SizePrinter((4096 << 10) - 1).parts(), (4095, SizeUnit::KiB));
    assert_eq!(SizePrinter(4096 << 10).parts(), (4, SizeUnit::MiB));
    assert_eq!(SizePrinter(4096 << 20).parts(), (0, SizeUnit::GiB));
    assert_eq!(SizePrinter((4096u64 << 30) - 1).parts(), (3, SizeUnit::GiB));
    assert_eq!(SizePrinter(4096u64 << 30).parts(), (4, SizeUnit::TiB));
    assert_eq!(SizePrinter(u64::MAX).parts(), (0xff_ffff, SizeUnit::TiB));
    assert_eq!(SizeUnit::MiB.name(), "MiB");
    assert_eq!(SizeUnit::B.name(), "B");
}

#[test]
fn storage_odds_and_ends() {
    assert_eq!(VolOpenError::NotFound.message(), "No such logical volume");
    assert_eq!(VolOpenError::Locked.message(), "Logical volume already open");
    let bytes = [1u8, 2, 3];
    let send = DataPtr::Send(&bytes);
    assert!(send.is_send());
    assert_eq!(send.len(), 3);
    assert_eq!(send.as_slice(), &[1, 2, 3]);
    assert!(!DataPtr::Recv(&bytes[..1]).is_send());
    assert_eq!(best_mapper(&vec![]), None);
    assert_eq!(best_mapper(&vec![Ok(0), Err(IoError::Timeout)]), None);
    assert_eq!(best_mapper(&vec![Ok(1), Ok(3), Err(IoError::BadBlock), Ok(3), Ok(2)]), Some((1, 3)));
    assert_eq!(Error::from_io(IoError::NoMedium), Error::BlockIoError(IoError::NoMedium));
}

#[test]
fn drivers_are_chosen() {
    assert_eq!(choose_driver(true, Some(1), &vec![None, None]), Ok(1));
    assert_eq!(choose_driver(true, None, &vec![Some(5)]), Err(MountError::UnknownFilesystem));
    assert_eq!(choose_driver(false, None, &vec![]), Err(MountError::NoHandler));
    assert_eq!(choose_driver(false, None, &vec![Some(0), None]), Err(MountError::NoHandler));
    assert_eq!(choose_driver(false, Some(0), &vec![Some(1), None, Some(3), Some(2)]), Ok(2));
    // Of several with the highest strength the last one wins.
    assert_eq!(choose_driver(false, None, &vec![Some(2), Some(1), Some(2)]), Ok(2));
    assert_eq!(check_mountpoint(true, true, false), Ok(()));
    assert_eq!(check_mountpoint(false, true, false), Err(MountError::InvalidMountpoint));
    assert_eq!(check_mountpoint(true, false, true), Err(MountError::InvalidMountpoint));
    assert_eq!(check_mountpoint(true, true, true), Err(MountError::MountpointUsed));
    assert_eq!(MountError::NoHandler.message(), "No registered filesystem driver handles this volume");
    assert_eq!(MountError::UnknownFilesystem.message(), "Filesystem driver not found");
    assert_eq!(MountError::InvalidMountpoint.message(), "The specified mountpoint was invalid");
    assert_eq!(MountError::MountpointUsed.message(), "The specified mountpoint was already used");
    assert_eq!(MountError::CallFailed.message(), "Driver's mount call failed");
}

#[test]
fn mount_handles() {
    let root = Handle::from_id(0, 0);
    assert!(root.is_root());
    assert_eq!(root.id(), 0);
    let second = Handle::from_id(2, 3);
    assert!(!second.is_root());
    assert_eq!(second.volume_index(), 1);
    assert_eq!(root.root_inode(&NullFs), 0);
    assert_eq!(root.get_node(&NullFs, 5), None);
    assert_eq!(NullFs.root_inode(), 0);
    assert_eq!(SelfHandle(4).get_node(9), (4, 9));
}

#[test]
fn files_get_runs_of_blocks() {
    assert!(check_insert(0, 4, 4, 8));
    assert!(check_insert(4, 8, 0, 4));
    assert!(!check_insert(0, 5, 4, 8));
    assert!(check_insert(3, 3, 0, 8) == false);
    let mut map = DiskMap::new();
    assert_eq!(map.extents, vec![Extent { id: 65535, ofs: 0, len: 0 }]);
    assert_eq!(map.allocate(7, 10), Some(0));
    assert_eq!(map.allocate(3, 5), Some(10));
    assert_eq!(map.allocate(9, 2), Some(15));
    assert_eq!(
        map.extents,
        vec![
            Extent { id: 3, ofs: 10, len: 5 },
            Extent { id: 7, ofs: 0, len: 10 },
            Extent { id: 9, ofs: 15, len: 2 },
            Extent { id: 65535, ofs: 0, len: 0 }
        ]
    );
    assert_eq!(map.get(7), Some(Extent { id: 7, ofs: 0, len: 10 }));
    assert_eq!(map.get(8), None);
    // File 7 gives its run up. The runs are tried in the order of the
    // numbers of the files: behind file 3 lies file 9, behind file 9
    // nothing.
    assert_eq!(map.allocate(7, 4), Some(17));
    assert_eq!(map.allocate(7, 8), Some(17));
    // Behind the run of file 65535, at the start of the disk, 10 blocks are
    // free by now, but the run behind file 3 is tried first.
    assert_eq!(map.allocate(1, 2), Some(25));
    assert_eq!(map.get(3), Some(Extent { id: 3, ofs: 10, len: 5 }));
    for a in &map.extents {
        for b in &map.extents {
            if a.id != b.id {
                assert!(a.ofs + a.len <= b.ofs || b.ofs + b.len <= a.ofs);
            }
        }
    }
    let mut empty = DiskMap { extents: Vec::new() };
    assert_eq!(empty.allocate(1, 1), None);
    assert!(empty.extents.is_empty());
}

#[test]
fn controller_of_the_ps2_ports() {
    assert!(i8042::init(None));
    assert!(i8042::init(Some((1, 0))));
    assert!(i8042::init(Some((3, 2))));
    assert!(!i8042::init(Some((3, 1))));
    assert!(Ctrlr8042::poll_out(0x01));
    assert!(!Ctrlr8042::poll_out(0x02));
    assert!(Ctrlr8042::poll_in(0x01));
    assert!(!Ctrlr8042::poll_in(0x02));
    assert_eq!(Ctrlr8042::wait_out(999), Ok(()));
    assert_eq!(Ctrlr8042::wait_out(1000), Err(()));
    assert_eq!(Ctrlr8042::wait_in(99_999), Ok(()));
    assert_eq!(Ctrlr8042::wait_in(100_000), Err(()));
    assert_eq!(
        Ctrlr8042::disable_ports(),
        vec![ControllerWrite::Command(0xAD), ControllerWrite::Command(0xA7)]
    );
    assert_eq!(Ctrlr8042::setup_config(0xFF), (0xBC, true));
    assert_eq!(Ctrlr8042::setup_config(0x47), (0x04, false));
    assert!(Ctrlr8042::self_test_passed(0x55));
    assert!(!Ctrlr8042::self_test_passed(0xFC));
    assert!(Ctrlr8042::has_second_port(true, 0x04));
    assert!(!Ctrlr8042::has_second_port(true, 0x24));
    assert!(!Ctrlr8042::has_second_port(false, 0x04));
    assert!(Ctrlr8042::port_works(0));
    assert!(!Ctrlr8042::port_works(1));
    let both = Ports { port1_works: true, port2_works: true };
    let first = Ports { port1_works: true, port2_works: false };
    let none = Ports { port1_works: false, port2_works: false };
    assert_eq!(Ctrlr8042::enable_config(0x04, both), 0x07);
    assert_eq!(Ctrlr8042::enable_config(0x04, first), 0x05);
    assert_eq!(Ctrlr8042::enable_config(0x04, none), 0x04);
    assert_eq!(
        Ctrlr8042::enable_ports(0x07, both),
        vec![
            ControllerWrite::Command(0x60),
            ControllerWrite::Data(0x07),
            ControllerWrite::Command(0xAE),
            ControllerWrite::Data(0xFF),
            ControllerWrite::Command(0xA8),
            ControllerWrite::Command(0xD4),
            ControllerWrite::Data(0xFF)
        ]
    );
    assert_eq!(
        Ctrlr8042::enable_ports(0x04, none),
        vec![ControllerWrite::Command(0x60), ControllerWrite::Data(0x04)]
    );
}

#[test]
fn ports_answer_their_devices() {
    let mut first = Port::new(false);
    let mut second = Port::new(true);
    assert_eq!(first.dev, PS2Dev::Absent);
    assert_eq!(first.send_byte(0xF4), vec![ControllerWrite::Data(0xF4)]);
    assert_eq!(
        second.send_byte(0xF4),
        vec![ControllerWrite::Command(0xD4), ControllerWrite::Data(0xF4)]
    );
    let (writes, _) = second.handle_irq(0xAA);
    assert_eq!(writes, vec![ControllerWrite::Command(0xD4), ControllerWrite::Data(0xF5)]);
    for byte in [0xAA, 0xFA, 0xFA, 0xAB, 0x83, 0xFA, 0x02] {
        first.handle_irq(byte);
    }
    let (writes, reply) = first.handle_irq(0x1C);
    assert!(writes.is_empty());
    assert_eq!(reply.key, Some(KeyEvent::Press(KeyCode::A)));
}

fn frame(trap_num: u64) -> TrapFrame {
    TrapFrame { trap_num, error_code: 6, cs: 0x10, ss: 0x20, rflags: 0x282, rip: 0x1000, ..TrapFrame::default() }
}

#[test]
fn traps_are_told_apart() {
    assert_eq!(rust_trap(&mut frame(3)), Trap::Breakpoint);
    assert_eq!(rust_trap(&mut frame(8)), Trap::DoubleFault);
    assert_eq!(rust_trap(&mut frame(14)), Trap::PageFault(6));
    assert_eq!(rust_trap(&mut frame(13)), Trap::GeneralProtectionFault);
    assert_eq!(rust_trap(&mut frame(32)), Trap::Irq(IrqSource::Timer, 0));
    assert_eq!(rust_trap(&mut frame(33)), Trap::Irq(IrqSource::Keyboard, 1));
    assert_eq!(rust_trap(&mut frame(44)), Trap::Irq(IrqSource::Mouse, 12));
    assert_eq!(rust_trap(&mut frame(36)), Trap::Irq(IrqSource::Com1, 4));
    assert_eq!(rust_trap(&mut frame(35)), Trap::Irq(IrqSource::Com2, 3));
    // Only the lowest eight bits of the number count.
    assert_eq!(rust_trap(&mut frame(0x103)), Trap::Breakpoint);
    for number in [3, 8, 13, 14, 32, 33, 35, 36, 44, 120, 121] {
        assert!(is_handled(number));
    }
    for number in [0, 1, 6, 34, 46, 64, 65, 0x80, 255] {
        assert!(!is_handled(number));
    }
}

#[test]
fn ring_switches_change_the_selectors() {
    let mut tf = frame(120);
    assert_eq!(rust_trap(&mut tf), Trap::ToUser);
    assert_eq!(tf, TrapFrame { cs: 0x1b, ss: 0x2b, rflags: 0x3282, ..frame(120) });
    assert_eq!(set_return_rsp(&tf, 0x8000), Some(0x8000 + 176));
    tf.trap_num = 121;
    assert_eq!(rust_trap(&mut tf), Trap::ToKernel);
    assert_eq!(tf, TrapFrame { cs: 0x10, ss: 0x20, rflags: 0x3282, ..frame(121) });
    assert_eq!(set_return_rsp(&tf, 0x8000), None);
    let mut other = frame(3);
    to_user(&mut other);
    assert_eq!((other.cs, other.ss, other.rflags), (0x1b, 0x2b, 0x3282));
    to_kernel(&mut other);
    assert_eq!((other.cs, other.ss, other.rflags), (0x10, 0x20, 0x3282));
    let mut untouched = frame(3);
    rust_trap(&mut untouched);
    assert_eq!(untouched, frame(3));
}

#[test]
fn timer_reports_every_hundredth_tick() {
    let mut timer = Timer::new();
    let reports: Vec<usize> = (1..=250).filter(|_| timer.timer()).collect();
    assert_eq!(reports, vec![100, 200]);
    assert_eq!(timer.tick, 250);
    let mut last = Timer { tick: usize::MAX };
    assert!(last.timer());
    assert_eq!(last.tick, 0);
    assert_eq!(enable_irq(4, true), IrqController::IoApic { irq: 4, cpu: 0 });
    assert_eq!(enable_irq(4, false), IrqController::Pic { irq: 4 });
}
