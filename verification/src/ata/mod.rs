//! The driver of ATA disks: a volume is a disk at a controller.

use vstd::prelude::*;

pub mod io;

use self::io::{DmaController, Transfer, SECTOR_SIZE};
use crate::metadevs::storage::IoError;

verus! {

/// A disk at a controller.
pub struct AtaVolume {
    pub name: String,
    pub disk: u8,
    pub controller: DmaController,
    pub size: u64,
}

impl AtaVolume {
    /// The volume of the disk with the number `disk`, which holds `size`
    /// sectors, at a controller that bears the name of the volume.
    pub fn new(sname: String, disk: u8, size: u64) -> (volume: AtaVolume)
        ensures
            volume.name@ == sname@,
            volume.controller.name@ == sname@,
            volume.disk == disk,
            volume.size == size,
    {
        AtaVolume {
            name: sname.clone(),
            disk: disk,
            controller: DmaController { name: sname },
            size: size,
        }
    }

    /// The name of the volume.
    pub fn name(&self) -> (name: &str)
        ensures
            name@ == self.name@,
    {
        self.name.as_str()
    }

    /// The number of 32-bit words of a block.
    pub fn blocksize(&self) -> (size: usize)
        ensures
            size == SECTOR_SIZE,
    {
        SECTOR_SIZE
    }

    /// The number of blocks of the volume.
    pub fn capacity(&self) -> (capacity: Option<u64>)
        ensures
            capacity == Some(self.size),
    {
        Some(self.size)
    }

    /// What is written to the controller to find the disks, one pair of
    /// writes for each of the four disks: the disk is selected and asked to
    /// identify itself.
    pub fn init(&self) -> (writes: Vec<(crate::serial::PortWrite, crate::serial::PortWrite)>)
        ensures
            writes@.len() == io::MAX_IDE,
            forall|ideno: int|
                0 <= ideno < io::MAX_IDE ==> #[trigger] writes@[ideno] == (
                    io::select_write(ideno as u8),
                    io::identify_write(ideno as u8),
                ),
    {
        self.controller.ide_init()
    }

    /// Makes the volume that of another disk and hands back what is
    /// written to the controller to find the disks.
    pub fn init2(&mut self, sname: String, disk: u8, size: u64) -> (writes: Vec<
        (crate::serial::PortWrite, crate::serial::PortWrite),
    >)
        ensures
            final(self).name@ == sname@,
            final(self).controller.name@ == sname@,
            final(self).disk == disk,
            final(self).size == size,
            writes@.len() == io::MAX_IDE,
            forall|ideno: int|
                0 <= ideno < io::MAX_IDE ==> #[trigger] writes@[ideno] == (
                    io::select_write(ideno as u8),
                    io::identify_write(ideno as u8),
                ),
    {
        self.name = sname.clone();
        self.disk = disk;
        self.controller = DmaController { name: sname };
        self.size = size;
        self.init()
    }

    /// The transfer that reads `num` blocks from the block `idx` on into a
    /// buffer of `dst_len` words.
    pub fn read(&self, _prio: u8, idx: u64, num: usize, dst_len: usize) -> (result: Result<
        Transfer,
        IoError,
    >)
        requires
            dst_len == num * SECTOR_SIZE,
        ensures
            result matches Ok(t) && t.commands@ == io::command_writes(
                self.disk,
                idx,
                (num % 256) as u8,
                false,
            ) && t.data_port == io::io_base(self.disk) && t.sectors == num % 256 && !t.write
                && t.reported == 0,
    {
        self.controller.do_dma_rd(idx, num, dst_len, self.disk)
    }

    /// The transfer that writes `num` blocks from the block `idx` on from
    /// a buffer of `src_len` words.
    pub fn write(&self, _prio: u8, idx: u64, num: usize, src_len: usize) -> (result: Result<
        Transfer,
        IoError,
    >)
        requires
            src_len == num * SECTOR_SIZE,
        ensures
            result matches Ok(t) && t.commands@ == io::command_writes(
                self.disk,
                idx,
                (num % 256) as u8,
                true,
            ) && t.data_port == io::io_base(self.disk) && t.sectors == num % 256 && t.write
                && t.reported == 0,
    {
        self.controller.do_dma_wr(idx, num, src_len, self.disk)
    }

    /// Erases blocks. Nothing is done: the disks are not told what is no
    /// longer needed.
    pub fn wipe(&self, _blockidx: u64, _count: usize) -> (result: Result<(), IoError>)
        ensures
            result is Ok,
    {
        Ok(())
    }
}

impl crate::metadevs::volumes::PhysicalVolume for AtaVolume {
    /// The name of the volume.
    fn name(&self) -> (name: &str)
        ensures
            name@ == self.name@,
    {
        self.name.as_str()
    }

    /// The number of 32-bit words of a block: that of a sector.
    fn blocksize(&self) -> (size: usize)
        ensures
            size == SECTOR_SIZE,
    {
        SECTOR_SIZE
    }

    /// The number of blocks of the volume: a disk always has its medium.
    fn capacity(&self) -> (capacity: Option<u64>)
        ensures
            capacity == Some(self.size),
    {
        Some(self.size)
    }
}

} // verus!
