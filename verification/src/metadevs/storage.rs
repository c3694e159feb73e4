//! Storage (block device) subsystem: logical volumes that are laid out
//! over regions of physical volumes.

use vstd::prelude::*;

verus! {

/// Block-level input-output error.
#[derive(Debug, Copy, Clone, PartialEq, Eq)]
pub enum IoError {
    BadAddr,
    InvalidParameter,
    Timeout,
    BadBlock,
    ReadOnly,
    NoMedium,
    Unknown(&'static str),
}

/// Why a logical volume could not be opened.
#[derive(Debug, Clone, Copy, PartialEq, Eq, Structural)]
pub enum VolOpenError {
    NotFound,
    Locked,
}

impl VolOpenError {
    /// What the error says.
    pub fn message(&self) -> (text: &'static str)
        ensures
            text == match self {
                VolOpenError::NotFound => "No such logical volume",
                VolOpenError::Locked => "Logical volume already open",
            },
    {
        match self {
            VolOpenError::NotFound => "No such logical volume",
            VolOpenError::Locked => "Logical volume already open",
        }
    }
}

/// Data that is sent to a volume or received from it.
pub enum DataPtr<'a> {
    Send(&'a [u8]),
    Recv(&'a [u8]),
}

impl<'a> DataPtr<'a> {
    /// The bytes.
    pub fn as_slice(&self) -> (bytes: &[u8])
        ensures
            bytes@ == match *self {
                DataPtr::Send(p) => p@,
                DataPtr::Recv(p) => p@,
            },
    {
        match self {
            DataPtr::Send(p) => p,
            DataPtr::Recv(p) => p,
        }
    }

    /// The number of bytes.
    pub fn len(&self) -> (len: usize)
        ensures
            len == match *self {
                DataPtr::Send(p) => p@.len(),
                DataPtr::Recv(p) => p@.len(),
            },
    {
        self.as_slice().len()
    }

    /// Whether the data is sent.
    pub fn is_send(&self) -> (send: bool)
        ensures
            send == (*self is Send),
    {
        match self {
            DataPtr::Send(_) => true,
            DataPtr::Recv(_) => false,
        }
    }
}

/// The unit in which a size is printed.
#[derive(Debug, Clone, Copy, PartialEq, Eq, Structural)]
pub enum SizeUnit {
    B,
    KiB,
    MiB,
    GiB,
    TiB,
}

/// Helper to print out the size of a volume/size as a pretty SI base 2
/// number.
#[derive(Debug, Clone, Copy, PartialEq, Eq, Structural)]
pub struct SizePrinter(pub u64);

/// The largest value that is printed in a unit.
pub const THRESHOLD: u64 = 4096;

impl SizePrinter {
    /// The number and the unit with which the size is printed: the largest
    /// unit in which the number stays below 4096 gives the unit. Sizes that
    /// are printed in GiB are divided like those in TiB.
    pub fn parts(&self) -> (result: (u64, SizeUnit))
        ensures
            result == if self.0 < THRESHOLD {
                (self.0, SizeUnit::B)
            } else if self.0 < THRESHOLD * 1024 {
                (self.0 / 1024, SizeUnit::KiB)
            } else if self.0 < THRESHOLD * 1024 * 1024 {
                ((self.0 / 0x10_0000) as u64, SizeUnit::MiB)
            } else if self.0 < THRESHOLD * 1024 * 1024 * 1024 {
                ((self.0 / 0x100_0000_0000) as u64, SizeUnit::GiB)
            } else {
                ((self.0 / 0x100_0000_0000) as u64, SizeUnit::TiB)
            },
    {
        let v = self.0;
        assert(v >> 10 == v / 1024 && v >> 20 == v / 0x10_0000 && v >> 40 == v / 0x100_0000_0000
            && 4096u64 << 10 == 4096 * 1024 && 4096u64 << 20 == 4096 * 1024 * 1024 && 4096u64 << 30
            == 4096 * 1024 * 1024 * 1024) by (bit_vector);
        if self.0 < THRESHOLD {
            (self.0, SizeUnit::B)
        } else if self.0 < THRESHOLD << 10 {
            (self.0 >> 10, SizeUnit::KiB)
        } else if self.0 < THRESHOLD << 20 {
            (self.0 >> 20, SizeUnit::MiB)
        } else if self.0 < THRESHOLD << 30 {
            (self.0 >> 40, SizeUnit::GiB)
        } else {
            (self.0 >> 40, SizeUnit::TiB)
        }
    }
}

impl SizeUnit {
    /// The name of the unit.
    pub fn name(&self) -> (name: &'static str)
        ensures
            name == match self {
                SizeUnit::B => "B",
                SizeUnit::KiB => "KiB",
                SizeUnit::MiB => "MiB",
                SizeUnit::GiB => "GiB",
                SizeUnit::TiB => "TiB",
            },
    {
        match self {
            SizeUnit::B => "B",
            SizeUnit::KiB => "KiB",
            SizeUnit::MiB => "MiB",
            SizeUnit::GiB => "GiB",
            SizeUnit::TiB => "TiB",
        }
    }
}

/// Physical volume registration.
#[derive(Debug, Clone, Copy, PartialEq, Eq, Structural)]
pub struct PhysicalVolumeReg {
    pub idx: usize,
}

/// Physical region used by a logical volume.
#[derive(Debug, Clone, Copy, PartialEq, Eq, Structural)]
pub struct PhysicalRegion {
    pub volume: usize,
    pub block_count: usize,
    pub first_block: u64,
}

/// A single logical volume, composed of 1 or more physical blocks.
pub struct LogicalVolume {
    /// LV Index
    pub index: usize,
    /// Logical volume name (should be unique)
    pub name: String,
    /// If true, a VolumeHandle exists for this volume
    pub is_opened: bool,
    /// Logical block size (max physical block size)
    pub block_size: usize,
    /// Stripe size (number of blocks), None = JBOD
    pub chunk_size: Option<usize>,
    /// Physical regions that compose this logical volume
    pub regions: Vec<PhysicalRegion>,
}

/// A unique handle to a storage volume (logical).
pub struct VolumeHandle {
    pub handle: LogicalVolume,
}

/// A piece of a request: the physical volume, the block on it at which the
/// piece starts, and its number of blocks.
#[derive(Debug, Clone, Copy, PartialEq, Eq, Structural)]
pub struct PhysBlocks {
    pub volume: usize,
    pub block: u64,
    pub count: usize,
}

/// The number of blocks of the first `n` regions.
pub open spec fn blocks_before(regions: Seq<PhysicalRegion>, n: int) -> int
    decreases n,
{
    if n <= 0 {
        0
    } else {
        blocks_before(regions, n - 1) + regions[n - 1].block_count
    }
}

/// The lesser of two numbers.
pub open spec fn min_of(a: int, b: int) -> int {
    if a < b {
        a
    } else {
        b
    }
}

/// The regions follow one another in the logical volume, and none ends
/// beyond the blocks that a number can name.
pub open spec fn regions_fit(regions: Seq<PhysicalRegion>) -> bool {
    forall|i: int|
        0 <= i < regions.len() ==> (#[trigger] regions[i]).first_block + regions[i].block_count
            <= u64::MAX
}

impl VolumeHandle {
    /// The volume is not striped, and its regions fit.
    pub open spec fn wf(&self) -> bool {
        self.handle.chunk_size.is_none() && regions_fit(self.handle.regions@)
    }

    /// The handle to an empty volume in memory.
    pub fn new_ramdisk(_count: usize) -> (handle: VolumeHandle)
        ensures
            handle.wf(),
            handle.handle.regions@.len() == 0,
            handle.handle.block_size == 0,
            handle.handle.index == 0,
            handle.handle.name@ == Seq::<char>::empty(),
            !handle.handle.is_opened,
    {
        VolumeHandle {
            handle: LogicalVolume {
                index: 0,
                name: String::new(),
                is_opened: false,
                block_size: 0,
                chunk_size: None,
                regions: Vec::new(),
            },
        }
    }

    /// The size of a block of the volume.
    pub fn block_size(&self) -> (size: usize)
        ensures
            size == self.handle.block_size,
    {
        self.handle.block_size
    }

    /// The index of the volume.
    pub fn idx(&self) -> (index: usize)
        ensures
            index == self.handle.index,
    {
        self.handle.index
    }

    /// The name of the volume.
    pub fn name(&self) -> (name: &str)
        ensures
            name@ == self.handle.name@,
    {
        self.handle.name.as_str()
    }

    /// Where the logical block `idx` lies, and how many of the `count`
    /// blocks from it on lie in one piece: the region that holds the block
    /// gives the physical volume, the block follows from how far `idx` lies
    /// behind the start of the region, and the piece ends with the region
    /// or with the request. `None` where the volume has no such block.
    pub fn get_phys_block(&self, idx: u64, count: usize) -> (result: Option<PhysBlocks>)
        requires
            self.wf(),
        ensures
            match result {
                Some(found) => exists|r: int|
                    {
                        &&& 0 <= r < self.handle.regions@.len()
                        &&& blocks_before(self.handle.regions@, r) <= idx < blocks_before(
                            self.handle.regions@,
                            r + 1,
                        )
                        &&& found.volume == (#[trigger] self.handle.regions@[r]).volume
                        &&& found.block == self.handle.regions@[r].first_block + (idx
                            - blocks_before(self.handle.regions@, r))
                        &&& found.count == min_of(
                            blocks_before(self.handle.regions@, r + 1) - idx,
                            count as int,
                        )
                    },
                None => idx >= blocks_before(
                    self.handle.regions@,
                    self.handle.regions@.len() as int,
                ),
            },
    {
        let mut idx_rem = idx;
        let mut r: usize = 0;
        while r < self.handle.regions.len()
            invariant
                self.wf(),
                r <= self.handle.regions@.len(),
                idx_rem == idx - blocks_before(self.handle.regions@, r as int),
                blocks_before(self.handle.regions@, r as int) <= idx,
            decreases self.handle.regions@.len() - r,
        {
            let v = self.handle.regions[r];
            assert(v == self.handle.regions@[r as int]);
            if idx_rem < v.block_count as u64 {
                let left = v.block_count as u64 - idx_rem;
                let ret_count = if left < count as u64 {
                    left as usize
                } else {
                    count
                };
                return Some(PhysBlocks { volume: v.volume, block: v.first_block + idx_rem, count: ret_count });
            } else {
                idx_rem -= v.block_count as u64;
            }
            r += 1;
        }
        None
    }

    /// The pieces in which `len` bytes from the logical block `idx` on are
    /// read or written, in the order of the blocks.
    ///
    /// The call fails with `InvalidParameter` where `len` is no multiple of
    /// the size of a block, and with `BadAddr` where the volume does not
    /// hold all the blocks.
    pub fn plan_blocks(&self, idx: u64, len: usize) -> (result: Result<Vec<PhysBlocks>, IoError>)
        requires
            self.wf(),
            self.handle.block_size > 0,
            idx + len / self.handle.block_size <= u64::MAX,
        ensures
            len % self.handle.block_size != 0 ==> result == Err::<Vec<PhysBlocks>, IoError>(
                IoError::InvalidParameter,
            ),
            len % self.handle.block_size == 0 ==> match result {
                Ok(pieces) => {
                    &&& total_count(pieces@, pieces@.len() as int) == len / self.handle.block_size
                    &&& forall|i: int| 0 <= i < pieces@.len() ==> (#[trigger] pieces@[i]).count > 0
                    &&& len / self.handle.block_size > 0 ==> idx + len / self.handle.block_size
                        <= blocks_before(
                        self.handle.regions@,
                        self.handle.regions@.len() as int,
                    )
                },
                Err(e) => e == IoError::BadAddr && idx + len / self.handle.block_size
                    > blocks_before(self.handle.regions@, self.handle.regions@.len() as int),
            },
    {
        let block_size = self.block_size();
        if len % block_size != 0 {
            return Err(IoError::InvalidParameter);
        }
        let total = len / block_size;
        let mut rem = total;
        let mut blk: usize = 0;
        let mut pieces: Vec<PhysBlocks> = Vec::new();
        while rem > 0
            invariant
                self.wf(),
                blk + rem == total,
                idx + total <= u64::MAX,
                len % self.handle.block_size == 0,
                total == len / self.handle.block_size,
                total_count(pieces@, pieces@.len() as int) == blk,
                forall|i: int| 0 <= i < pieces@.len() ==> (#[trigger] pieces@[i]).count > 0,
                blk > 0 ==> idx + blk <= blocks_before(
                    self.handle.regions@,
                    self.handle.regions@.len() as int,
                ),
            decreases rem,
        {
            let piece = match self.get_phys_block(idx + blk as u64, rem) {
                Some(v) => v,
                None => {
                    return Err(IoError::BadAddr);
                },
            };
            proof {
                let r = choose|r: int|
                    {
                        &&& 0 <= r < self.handle.regions@.len()
                        &&& blocks_before(self.handle.regions@, r) <= idx + blk < blocks_before(
                            self.handle.regions@,
                            r + 1,
                        )
                        &&& piece.volume == (#[trigger] self.handle.regions@[r]).volume
                        &&& piece.block == self.handle.regions@[r].first_block + (idx + blk
                            - blocks_before(self.handle.regions@, r))
                        &&& piece.count == min_of(
                            blocks_before(self.handle.regions@, r + 1) - (idx + blk),
                            rem as int,
                        )
                    };
                lemma_blocks_before_grows(
                    self.handle.regions@,
                    r + 1,
                    self.handle.regions@.len() as int,
                );
            }
            let ghost before = pieces@;
            pieces.push(piece);
            proof {
                lemma_total_count_push(before, piece);
            }
            blk += piece.count;
            rem -= piece.count;
        }
        Ok(pieces)
    }
}

/// The number of blocks of the first `n` pieces.
pub open spec fn total_count(pieces: Seq<PhysBlocks>, n: int) -> int
    decreases n,
{
    if n <= 0 {
        0
    } else {
        total_count(pieces, n - 1) + pieces[n - 1].count
    }
}

/// A piece that is added counts with its blocks.
pub proof fn lemma_total_count_push(pieces: Seq<PhysBlocks>, piece: PhysBlocks)
    ensures
        total_count(pieces.push(piece), (pieces.len() + 1) as int) == total_count(
            pieces,
            pieces.len() as int,
        )
            + piece.count,
{
    lemma_total_count_prefix(pieces, pieces.push(piece), pieces.len() as int);
}

/// The count over the first `n` pieces depends on those pieces only.
pub proof fn lemma_total_count_prefix(a: Seq<PhysBlocks>, b: Seq<PhysBlocks>, n: int)
    requires
        0 <= n <= a.len(),
        n <= b.len(),
        forall|i: int| 0 <= i < n ==> a[i] == b[i],
    ensures
        total_count(a, n) == total_count(b, n),
    decreases n,
{
    if n > 0 {
        lemma_total_count_prefix(a, b, n - 1);
    }
}

/// More regions hold at least as many blocks.
pub proof fn lemma_blocks_before_grows(regions: Seq<PhysicalRegion>, n: int, m: int)
    requires
        0 <= n <= m <= regions.len(),
    ensures
        blocks_before(regions, n) <= blocks_before(regions, m),
    decreases m - n,
{
    if n < m {
        lemma_blocks_before_grows(regions, n, m - 1);
    }
}

/// The number of blocks that go to a physical volume in one call.
pub const MAX_BLOCKS_PER_READ: usize = 32;

/// A piece of a write to a physical volume: the block at which it starts,
/// and the bytes of the data that it takes, from `start` up to `end`.
#[derive(Debug, Clone, Copy, PartialEq, Eq, Structural)]
pub struct WriteChunk {
    pub block: u64,
    pub start: usize,
    pub end: usize,
}

/// A single physical volume, as far as the layout of requests goes.
pub struct PhysicalVolumeInfo {
    pub block_size: usize,
}

impl PhysicalVolumeInfo {
    /// The number of blocks that go to the volume in one call.
    pub fn max_blocks_per_read(&self) -> (blocks: usize)
        ensures
            blocks == MAX_BLOCKS_PER_READ,
    {
        // 32 blocks per read op, = 0x4000 (16KB) for 512 byte sectors
        32
    }

    /// The number of bytes that go to the volume in one call.
    pub open spec fn step(&self) -> int {
        self.block_size * MAX_BLOCKS_PER_READ
    }

    /// The pieces in which `len` bytes are written to the volume from the
    /// block `first` on: every piece takes 32 blocks of the data, the last
    /// one what is left, and starts 32 blocks behind the one before. The
    /// second result is the number of blocks that the write reports.
    pub fn write(&self, first: u64, len: usize) -> (result: (Vec<WriteChunk>, usize))
        requires
            self.block_size > 0,
            self.step() <= usize::MAX,
            first + ((len as int) / self.step() + 1) * MAX_BLOCKS_PER_READ <= u64::MAX,
        ensures
            result.1 == (len as int) / (self.block_size as int),
            result.0@.len() == (len + self.step() - 1) / self.step(),
            forall|i: int|
                0 <= i < result.0@.len() ==> {
                    &&& (#[trigger] result.0@[i]).block == first + i * MAX_BLOCKS_PER_READ
                    &&& result.0@[i].start == i * self.step()
                    &&& result.0@[i].end == min_of((i + 1) * self.step(), len as int)
                },
    {
        let block_step = self.max_blocks_per_read();
        let block_size = self.block_size;
        let step = block_step * block_size;
        let mut chunks: Vec<WriteChunk> = Vec::new();
        let mut start: usize = 0;
        let mut block: u64 = first;
        let ghost bound = ((len as int) / self.step() + 1) * MAX_BLOCKS_PER_READ;
        if len == 0 {
            proof {
                assert(self.step() >= 1) by (nonlinear_arith)
                    requires
                        self.block_size > 0,
                        self.step() == self.block_size * MAX_BLOCKS_PER_READ,
                ;
                vstd::arithmetic::div_mod::lemma_fundamental_div_mod_converse(
                    self.step() - 1,
                    self.step(),
                    0,
                    self.step() - 1,
                );
            }
            return (chunks, len / block_size);
        }
        loop
            invariant
                step == self.step(),
                step > 0,
                start < len,
                start == chunks@.len() * step,
                block == first + chunks@.len() * MAX_BLOCKS_PER_READ,
                first + bound <= u64::MAX,
                bound == ((len as int) / self.step() + 1) * MAX_BLOCKS_PER_READ,
                block_size == self.block_size,
                block_step == MAX_BLOCKS_PER_READ,
                forall|i: int|
                    0 <= i < chunks@.len() ==> {
                        &&& (#[trigger] chunks@[i]).block == first + i * MAX_BLOCKS_PER_READ
                        &&& chunks@[i].start == i * step
                        &&& chunks@[i].end == min_of((i + 1) * step, len as int)
                    },
            decreases len - start,
        {
            let ghost n = chunks@.len() as int;
            proof {
                lemma_chunk_count(len as int, step as int, n);
                assert((n + 1) * step == n * step + step) by (nonlinear_arith);
                assert((n + 2) * MAX_BLOCKS_PER_READ <= bound + MAX_BLOCKS_PER_READ)
                    by (nonlinear_arith)
                    requires
                        n <= (len as int) / (step as int),
                        bound == ((len as int) / (step as int) + 1) * MAX_BLOCKS_PER_READ,
                ;
            }
            let end = if len - start < step {
                len
            } else {
                start + step
            };
            chunks.push(WriteChunk { block, start, end });
            if end >= len {
                return (chunks, len / block_size);
            }
            proof {
                assert((n + 2) * MAX_BLOCKS_PER_READ <= bound) by (nonlinear_arith)
                    requires
                        n + 1 <= (len as int) / (step as int),
                        bound == ((len as int) / (step as int) + 1) * MAX_BLOCKS_PER_READ,
                ;
            }
            start = end;
            block = block + block_step as u64;
        }
    }
}

/// Where `n` whole steps lie before the end of `len` bytes, `n` is at most
/// the number of whole steps in `len`, and one more step reaches the end
/// exactly if `n + 1` is the number of steps that cover `len`.
pub proof fn lemma_chunk_count(len: int, step: int, n: int)
    requires
        step > 0,
        0 <= n,
        n * step < len,
    ensures
        n <= len / step,
        (n + 1) * step >= len ==> n + 1 == (len + step - 1) / step,
        (n + 1) * step < len ==> n + 1 <= len / step,
{
    vstd::arithmetic::div_mod::lemma_fundamental_div_mod(len, step);
    vstd::arithmetic::div_mod::lemma_fundamental_div_mod(len + step - 1, step);
    let q = len / step;
    let r = len % step;
    let q2 = (len + step - 1) / step;
    let r2 = (len + step - 1) % step;
    assert(n <= q) by (nonlinear_arith)
        requires
            n * step < len,
            len == step * q + r,
            0 <= r < step,
            step > 0,
    ;
    if (n + 1) * step >= len {
        assert(n + 1 == q2) by (nonlinear_arith)
            requires
                n * step < len,
                (n + 1) * step >= len,
                len + step - 1 == step * q2 + r2,
                0 <= r2 < step,
                step > 0,
        ;
    } else {
        assert(n + 1 <= q) by (nonlinear_arith)
            requires
                (n + 1) * step < len,
                len == step * q + r,
                0 <= r < step,
                step > 0,
        ;
    }
}

/// `best` names the mapper that binds a physical volume, by its place and
/// its level: of the mappers that handle the volume, the one with the
/// highest level; of several with that level, the first. It is `None` where
/// no mapper handles the volume.
pub open spec fn is_best(levels: Seq<Result<usize, IoError>>, best: Option<(usize, usize)>) -> bool {
    match best {
        Some((index, level)) => {
            &&& index < levels.len()
            &&& level > 0
            &&& levels[index as int] == Ok::<usize, IoError>(level)
            &&& forall|i: int| 0 <= i < levels.len() ==> ((#[trigger] levels[i]) matches Ok(l) ==> l <= level)
            &&& forall|i: int| 0 <= i < index ==> ((#[trigger] levels[i]) matches Ok(l) ==> l < level)
        },
        None => forall|i: int| 0 <= i < levels.len() ==> ((#[trigger] levels[i]) matches Ok(l) ==> l == 0),
    }
}

/// Only one mapper is the best.
pub proof fn lemma_best_is_unique(
    levels: Seq<Result<usize, IoError>>,
    a: Option<(usize, usize)>,
    b: Option<(usize, usize)>,
)
    requires
        is_best(levels, a),
        is_best(levels, b),
    ensures
        a == b,
{
    match (a, b) {
        (Some((i, l)), Some((j, m))) => {
            assert(levels[i as int] matches Ok(x) && x <= m);
            assert(levels[j as int] matches Ok(x) && x <= l);
            if i < j {
                assert(levels[i as int] matches Ok(x) && x < m);
            } else if j < i {
                assert(levels[j as int] matches Ok(x) && x < l);
            }
        },
        (Some((i, l)), None) => {
            assert(levels[i as int] matches Ok(x) && x == 0);
        },
        (None, Some((j, m))) => {
            assert(levels[j as int] matches Ok(x) && x == 0);
        },
        (None, None) => {},
    }
}

/// The mapper that binds a physical volume: of those that handle it, the
/// one with the highest level; of several with that level, the first.
/// `levels` holds what every mapper says of the volume: the level with
/// which it handles it, 0 where it does not, or the error that kept it from
/// saying. `None` where no mapper handles the volume.
pub fn best_mapper(levels: &Vec<Result<usize, IoError>>) -> (best: Option<(usize, usize)>)
    ensures
        is_best(levels@, best),
{
    let mut best: Option<(usize, usize)> = None;
    let mut best_level: usize = 0;
    let mut i: usize = 0;
    while i < levels.len()
        invariant
            i <= levels@.len(),
            match best {
                Some((index, level)) => {
                    &&& index < i
                    &&& level > 0
                    &&& level == best_level
                    &&& levels@[index as int] == Ok::<usize, IoError>(level)
                    &&& forall|k: int|
                        0 <= k < i ==> ((#[trigger] levels@[k]) matches Ok(l) ==> l <= level)
                    &&& forall|k: int|
                        0 <= k < index ==> ((#[trigger] levels@[k]) matches Ok(l) ==> l < level)
                },
                None => best_level == 0 && forall|k: int|
                    0 <= k < i ==> ((#[trigger] levels@[k]) matches Ok(l) ==> l == 0),
            },
        decreases levels@.len() - i,
    {
        match levels[i] {
            Err(_) => {},
            Ok(level) => {
                if level > best_level {
                    best = Some((i, level));
                    best_level = level;
                }
            },
        }
        i += 1;
    }
    best
}

} // verus!
