//! ATA IO code: the registers of the controllers and what is written to
//! them for an operation.

use vstd::prelude::*;
use crate::metadevs::storage::IoError;
use crate::serial::PortWrite;

verus! {

/// The number of 32-bit words of a sector.
pub const SECTOR_SIZE: usize = 128;

/// The largest number of sectors of one transfer.
pub const MAX_DMA_SECTORS: usize = 16352;

pub const HDD_IDENTIFY: u8 = 0xEC;

pub const HDD_DMA_R28: u8 = 0xC8;

pub const HDD_DMA_W28: u8 = 0xCA;

pub const HDD_DMA_R48: u8 = 0x25;

pub const HDD_DMA_W48: u8 = 0x35;

pub const ISA_DATA: u16 = 0x00;

pub const ISA_ERROR: u16 = 0x01;

pub const ISA_PRECOMP: u16 = 0x01;

pub const ISA_CTRL: u16 = 0x02;

pub const ISA_SECCNT: u16 = 0x02;

pub const ISA_SECTOR: u16 = 0x03;

pub const ISA_CYL_LO: u16 = 0x04;

pub const ISA_CYL_HI: u16 = 0x05;

pub const ISA_SDH: u16 = 0x06;

pub const ISA_COMMAND: u16 = 0x07;

pub const ISA_STATUS: u16 = 0x07;

pub const IDE_BSY: u8 = 0x80;

pub const IDE_DRDY: u8 = 0x40;

pub const IDE_DF: u8 = 0x20;

pub const IDE_DRQ: u8 = 0x08;

pub const IDE_ERR: u8 = 0x01;

pub const IDE_CMD_READ: u8 = 0x20;

pub const IDE_CMD_WRITE: u8 = 0x30;

pub const IDE_CMD_IDENTIFY: u8 = 0xEC;

pub const IO_BASE0: u16 = 0x1F0;

pub const IO_BASE1: u16 = 0x170;

pub const IO_CTRL0: u16 = 0x3F4;

pub const IO_CTRL1: u16 = 0x374;

pub const MAX_IDE: usize = 4;

pub const MAX_NSECS: usize = 128;

/// The base of the registers of the channel that the disk `ideno` is
/// reached through: the second channel for disks above 2, the first for
/// all others.
pub open spec fn io_base(ideno: u8) -> u16 {
    if ideno > 2 {
        IO_BASE1
    } else {
        IO_BASE0
    }
}

/// The base of the control registers of the channel of the disk `ideno`.
pub open spec fn io_ctrl(ideno: u8) -> u16 {
    if ideno > 2 {
        IO_CTRL1
    } else {
        IO_CTRL0
    }
}

/// The byte that selects the disk `ideno` and holds the bits 24 to 27 of
/// the sector number `secno`.
pub open spec fn drive_select(ideno: u8, secno: u64) -> u8 {
    0xE0u8 | ((ideno & 1) << 4) | (((secno >> 24) & 0xF) as u8)
}

/// What is written to the registers to start a transfer of `nsecs` sectors
/// from the sector `secno` on of the disk `ideno`: interrupts on, the
/// number of sectors, the number of the first sector in four parts the last
/// of which goes with the selection of the disk, and the command.
pub open spec fn command_writes(ideno: u8, secno: u64, nsecs: u8, write: bool) -> Seq<PortWrite> {
    seq![
        PortWrite { port: (io_ctrl(ideno) + ISA_CTRL) as u16, value: 0 },
        PortWrite { port: (io_base(ideno) + ISA_SECCNT) as u16, value: nsecs },
        PortWrite { port: (io_base(ideno) + ISA_SECTOR) as u16, value: (secno & 0xFF) as u8 },
        PortWrite {
            port: (io_base(ideno) + ISA_CYL_LO) as u16,
            value: ((secno >> 8) & 0xFF) as u8,
        },
        PortWrite {
            port: (io_base(ideno) + ISA_CYL_HI) as u16,
            value: ((secno >> 16) & 0xFF) as u8,
        },
        PortWrite { port: (io_base(ideno) + ISA_SDH) as u16, value: drive_select(ideno, secno) },
        PortWrite {
            port: (io_base(ideno) + ISA_COMMAND) as u16,
            value: if write {
                IDE_CMD_WRITE
            } else {
                IDE_CMD_READ
            },
        },
    ]
}

/// A transfer between a disk and a buffer: what is written to the
/// registers to start it, the port through which the sectors then go, one
/// after the other and each once the disk is ready, the number of sectors,
/// and the direction. Sector `i` goes with the words `i * 128` to
/// `(i + 1) * 128` of the buffer. Of the number of sectors that were asked
/// for only the lowest eight bits reach the disk.
pub struct Transfer {
    pub commands: Vec<PortWrite>,
    pub data_port: u16,
    pub sectors: u8,
    pub write: bool,
    /// The number of blocks that the transfer reports as done.
    pub reported: usize,
}

/// The write that selects the disk `ideno`.
pub open spec fn select_write(ideno: u8) -> PortWrite {
    PortWrite { port: (io_base(ideno) + ISA_SDH) as u16, value: 0xE0u8 | ((ideno & 1) << 4) }
}

/// The write that asks the disk `ideno` to identify itself.
pub open spec fn identify_write(ideno: u8) -> PortWrite {
    PortWrite { port: (io_base(ideno) + ISA_COMMAND) as u16, value: IDE_CMD_IDENTIFY }
}

/// A controller of ATA disks.
pub struct DmaController {
    pub name: String,
}

impl DmaController {
    /// Read ATA DMA: the transfer that reads `count` sectors from
    /// `blockidx` on into a buffer of `dst_len` words.
    pub fn do_dma_rd(&self, blockidx: u64, count: usize, dst_len: usize, disk: u8) -> (result:
        Result<Transfer, IoError>)
        requires
            dst_len == count * SECTOR_SIZE,
        ensures
            result matches Ok(t) && t.commands@ == command_writes(
                disk,
                blockidx,
                (count % 256) as u8,
                false,
            ) && t.data_port == io_base(disk) && t.sectors == count % 256 && !t.write && t.reported
                == 0,
    {
        Ok(self.ide_secs(disk, blockidx, (count % 256) as u8, false))
    }

    /// Write ATA DMA: the transfer that writes `count` sectors from
    /// `blockidx` on from a buffer of `dst_len` words.
    pub fn do_dma_wr(&self, blockidx: u64, count: usize, dst_len: usize, disk: u8) -> (result:
        Result<Transfer, IoError>)
        requires
            dst_len == count * SECTOR_SIZE,
        ensures
            result matches Ok(t) && t.commands@ == command_writes(
                disk,
                blockidx,
                (count % 256) as u8,
                true,
            ) && t.data_port == io_base(disk) && t.sectors == count % 256 && t.write && t.reported
                == 0,
    {
        Ok(self.ide_secs(disk, blockidx, (count % 256) as u8, true))
    }

    /// Whether the status `status` of a disk says that it is busy.
    pub fn ide_busy(&self, status: u8) -> (busy: bool)
        ensures
            busy == (status & IDE_BSY != 0),
    {
        (status & IDE_BSY) > 0
    }

    /// What waiting for a disk comes to, once the disk is not busy and its
    /// status is `status`: 1 where errors count and the status reports a
    /// fault or an error, else 0.
    pub fn ide_wait_ready(&self, status: u8, check_error: usize) -> (result: usize)
        ensures
            result == if check_error == 1 && (status & (IDE_DF | IDE_ERR)) != 0 {
                1usize
            } else {
                0usize
            },
    {
        if check_error == 1 && (status & (IDE_DF | IDE_ERR)) != 0 {
            return 1;
        }
        0
    }

    /// What is written to find the disks, one pair of writes for each of
    /// the four disks: the disk is selected and asked to identify itself.
    pub fn ide_init(&self) -> (writes: Vec<(PortWrite, PortWrite)>)
        ensures
            writes@.len() == MAX_IDE,
            forall|ideno: int|
                0 <= ideno < MAX_IDE ==> #[trigger] writes@[ideno] == (
                    select_write(ideno as u8),
                    identify_write(ideno as u8),
                ),
    {
        let mut writes: Vec<(PortWrite, PortWrite)> = Vec::new();
        let mut ideno: u8 = 0;
        while ideno < MAX_IDE as u8
            invariant
                ideno <= MAX_IDE,
                writes@.len() == ideno,
                forall|k: int|
                    0 <= k < ideno ==> #[trigger] writes@[k] == (
                        select_write(k as u8),
                        identify_write(k as u8),
                    ),
            decreases MAX_IDE - ideno,
        {
            let iobase = base_of(ideno);
            /* step1: select drive */
            let select = PortWrite { port: iobase + ISA_SDH, value: 0xE0 | ((ideno & 1) << 4) };
            /* step2: send ATA identify command */
            let identify = PortWrite { port: iobase + ISA_COMMAND, value: IDE_CMD_IDENTIFY };
            writes.push((select, identify));
            ideno += 1;
        }
        writes
    }

    /// Whether a disk that was asked to identify itself is there: its
    /// status is not zero, and waiting for it with errors counted came to
    /// 0.
    pub fn ide_present(&self, status: u8, wait_result: usize) -> (present: bool)
        ensures
            present == (status != 0 && wait_result == 0),
    {
        !(status == 0 || wait_result != 0)
    }

    /// The transfer of `nsecs` sectors from the sector `secno` on of the
    /// disk `ideno`.
    fn ide_secs(&self, ideno: u8, secno: u64, nsecs: u8, write: bool) -> (transfer: Transfer)
        ensures
            transfer.commands@ == command_writes(ideno, secno, nsecs, write),
            transfer.data_port == io_base(ideno),
            transfer.sectors == nsecs,
            transfer.write == write,
            transfer.reported == 0,
    {
        let iobase = base_of(ideno);
        let ioctrl = ctrl_of(ideno);
        let mut commands: Vec<PortWrite> = Vec::new();
        // generate interrupt
        commands.push(PortWrite { port: ioctrl + ISA_CTRL, value: 0 });
        commands.push(PortWrite { port: iobase + ISA_SECCNT, value: nsecs });
        commands.push(PortWrite { port: iobase + ISA_SECTOR, value: (secno & 0xFF) as u8 });
        commands.push(PortWrite { port: iobase + ISA_CYL_LO, value: ((secno >> 8) & 0xFF) as u8 });
        commands.push(PortWrite { port: iobase + ISA_CYL_HI, value: ((secno >> 16) & 0xFF) as u8 });
        commands.push(
            PortWrite {
                port: iobase + ISA_SDH,
                value: 0xE0 | ((ideno & 1) << 4) | (((secno >> 24) & 0xF) as u8),
            },
        );
        commands.push(
            PortWrite {
                port: iobase + ISA_COMMAND,
                value: if write {
                    IDE_CMD_WRITE
                } else {
                    IDE_CMD_READ
                },
            },
        );
        assert(commands@ =~= command_writes(ideno, secno, nsecs, write));
        Transfer { commands, data_port: iobase, sectors: nsecs, write, reported: 0 }
    }
}

/// The base of the registers of the channel of the disk `ideno`.
pub fn base_of(ideno: u8) -> (base: u16)
    ensures
        base == io_base(ideno),
{
    if ideno > 2 {
        IO_BASE1
    } else {
        IO_BASE0
    }
}

/// The base of the control registers of the channel of the disk `ideno`.
pub fn ctrl_of(ideno: u8) -> (base: u16)
    ensures
        base == io_ctrl(ideno),
{
    if ideno > 2 {
        IO_CTRL1
    } else {
        IO_CTRL0
    }
}

/// The words of a buffer that sector `i` of a transfer goes with.
pub fn sector_words(i: u8) -> (range: (usize, usize))
    ensures
        range.0 == i * SECTOR_SIZE,
        range.1 == (i + 1) * SECTOR_SIZE,
{
    ((i as usize) * SECTOR_SIZE, ((i as usize) + 1) * SECTOR_SIZE)
}

/// The bytes in which the number of a sector goes to the registers make up
/// its lowest 28 bits again, and the byte that selects the disk names the
/// disk in bit 4.
pub proof fn lemma_sector_number_is_split(ideno: u8, secno: u64)
    ensures
        ({
            let low = (secno & 0xFF) as u8;
            let mid = ((secno >> 8) & 0xFF) as u8;
            let high = ((secno >> 16) & 0xFF) as u8;
            let top = drive_select(ideno, secno) & 0xF;
            (low as u64) | ((mid as u64) << 8) | ((high as u64) << 16) | ((top as u64) << 24)
                == secno & 0xFFF_FFFF
        }),
        drive_select(ideno, secno) & 0xE0 == 0xE0,
        (drive_select(ideno, secno) & 0x10 != 0) == (ideno & 1 != 0),
{
    assert({
        let low = (secno & 0xFF) as u8;
        let mid = ((secno >> 8) & 0xFF) as u8;
        let high = ((secno >> 16) & 0xFF) as u8;
        let select = 0xE0u8 | ((ideno & 1) << 4) | (((secno >> 24) & 0xF) as u8);
        let top = select & 0xF;
        &&& (low as u64) | ((mid as u64) << 8) | ((high as u64) << 16) | ((top as u64) << 24)
            == secno & 0xFFF_FFFF
        &&& select & 0xE0 == 0xE0
        &&& (select & 0x10 != 0) == (ideno & 1 != 0)
    }) by (bit_vector);
}

} // verus!
