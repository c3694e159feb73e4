//! Helper type for DMA accesses: a buffer in virtual memory together with
//! the physical memory that it lies in.

use vstd::prelude::*;
use crate::memory::frame::PAGE_SIZE;
use crate::paging::mapper::Mapper;
use crate::paging::Page;

verus! {

/// The end of the addresses that a buffer may take: the lower half of the
/// address space.
pub const BUFFER_LIMIT: u64 = 0x0000_8000_0000_0000;

/// The physical address that `mapper` maps the virtual address `address`
/// to; 0 where the address is not mapped.
pub open spec fn phys_of(mapper: Mapper, address: u64) -> u64 {
    match mapper.lookup(Page { number: address / 4096 }) {
        Some(m) => if m.frame.valid() {
            (m.frame.number * 4096 + address % 4096) as u64
        } else {
            0
        },
        None => 0,
    }
}

/// The physical address that `mapper` maps the virtual address `address`
/// to; 0 where the address is not mapped.
pub fn get_phys(mapper: &Mapper, address: u64) -> (phys: u64)
    requires
        mapper.wf(),
        address < BUFFER_LIMIT,
    ensures
        phys == phys_of(*mapper, address),
{
    match mapper.translate(address) {
        Some(p) => p.get(),
        None => 0,
    }
}

/// The start of the piece with the number `i` of a buffer at `source`: the
/// buffer is cut at the ends of the pages, so the first piece starts with
/// the buffer and every other with a page.
pub open spec fn piece_start(source: u64, i: int) -> int {
    if i == 0 {
        source as int
    } else {
        (source / 4096 + i) * 4096
    }
}

/// The number of pieces of a buffer of `len` bytes at `source`.
pub open spec fn piece_count(source: u64, len: usize) -> int {
    if len == 0 {
        0
    } else {
        (source + len - 1) / 4096 - source / 4096 + 1
    }
}

/// Every piece of the buffer lies in physical memory whose addresses fit
/// into `bits` bits. The first piece counts even where the buffer is empty.
pub open spec fn fits_bits(mapper: Mapper, source: u64, len: usize, bits: u8) -> bool {
    bits >= 64 || (phys_of(mapper, source) >> (bits as u64) == 0 && forall|i: int|
        1 <= i < piece_count(source, len) ==> phys_of(mapper, #[trigger] piece_start(source, i) as u64)
            >> (bits as u64) == 0)
}

/// A buffer guaranteed to be in a certain area of physical memory.
#[derive(Debug, Clone, Copy, PartialEq, Eq, Structural)]
pub struct DMABuffer {
    pub source: u64,
    pub buffer_len: usize,
    pub phys: u64,
}

impl DMABuffer {
    /// Whether every piece of the buffer of `len` bytes at `source` lies in
    /// physical memory whose addresses fit into `bits` bits.
    pub fn check_bits(mapper: &Mapper, source: u64, len: usize, bits: u8) -> (fits: bool)
        requires
            mapper.wf(),
            source + len <= BUFFER_LIMIT,
            source < BUFFER_LIMIT,
        ensures
            fits == fits_bits(*mapper, source, len, bits),
    {
        let ofs = source % (PAGE_SIZE as u64);
        if bits >= 64 {
            return true;
        }
        if get_phys(mapper, source) >> (bits as u64) != 0 {
            return false;
        }
        if (PAGE_SIZE as u64) - ofs < len as u64 {
            let first_page = source / 4096;
            let last_page = (source + len as u64 - 1) / 4096;
            let mut page = first_page + 1;
            while page <= last_page
                invariant
                    mapper.wf(),
                    bits < 64,
                    len > 0,
                    source + len <= BUFFER_LIMIT,
                    first_page == source / 4096,
                    last_page == (source + len - 1) / 4096,
                    first_page < page <= last_page + 1,
                    forall|i: int|
                        1 <= i < page - first_page ==> phys_of(
                            *mapper,
                            #[trigger] piece_start(source, i) as u64,
                        ) >> (bits as u64) == 0,
                decreases last_page + 1 - page,
            {
                let ghost i = page - first_page;
                let phys = get_phys(mapper, page * 4096);
                assert(piece_start(source, i) == page * 4096);
                if phys >> (bits as u64) != 0 {
                    assert(1 <= i < piece_count(source, len));
                    return false;
                }
                page += 1;
            }
        } else {
            assert(piece_count(source, len) <= 1);
        }
        true
    }

    /// A buffer over `len` bytes at `source` for a device that can reach
    /// physical addresses of `bits` bits. `None` where a part of the buffer
    /// lies beyond what the device can reach.
    pub fn new(mapper: &Mapper, source: u64, len: usize, bits: u8) -> (buffer: Option<DMABuffer>)
        requires
            mapper.wf(),
            source + len <= BUFFER_LIMIT,
            source < BUFFER_LIMIT,
        ensures
            buffer == if fits_bits(*mapper, source, len, bits) {
                Some(DMABuffer { source, buffer_len: len, phys: phys_of(*mapper, source) })
            } else {
                None
            },
    {
        if Self::check_bits(mapper, source, len, bits) == false {
            None
        } else {
            Some(DMABuffer { source, buffer_len: len, phys: get_phys(mapper, source) })
        }
    }

    /// A buffer as `new` makes it, over memory that is written to.
    pub fn new_mut(mapper: &Mapper, source: u64, len: usize, bits: u8) -> (buffer: Option<DMABuffer>)
        requires
            mapper.wf(),
            source + len <= BUFFER_LIMIT,
            source < BUFFER_LIMIT,
        ensures
            buffer == if fits_bits(*mapper, source, len, bits) {
                Some(DMABuffer { source, buffer_len: len, phys: phys_of(*mapper, source) })
            } else {
                None
            },
    {
        DMABuffer::new(mapper, source, len, bits)
    }

    /// The buffer of `len` bytes at `source` lies in one piece of physical
    /// memory: it is not longer than a page, and its last byte lies as far
    /// behind its first in physical memory as in virtual memory.
    pub open spec fn is_contiguous(mapper: Mapper, source: u64, len: usize) -> bool {
        len <= PAGE_SIZE && phys_of(mapper, source) + len - 1 == phys_of(
            mapper,
            (source + len - 1) as u64,
        )
    }

    /// Creates a new DMABuffer contiguous in the specified region. `None`
    /// where the buffer does not lie in one piece of physical memory that
    /// the device can reach.
    pub fn new_contig(mapper: &Mapper, source: u64, len: usize, bits: u8) -> (buffer: Option<
        DMABuffer,
    >)
        requires
            mapper.wf(),
            len > 0,
            source + len <= BUFFER_LIMIT,
        ensures
            buffer == if fits_bits(*mapper, source, len, bits) && Self::is_contiguous(
                *mapper,
                source,
                len,
            ) {
                Some(DMABuffer { source, buffer_len: len, phys: phys_of(*mapper, source) })
            } else {
                None
            },
    {
        let bytes = len;
        let phys = get_phys(mapper, source);
        let end_phys = get_phys(mapper, source + (len as u64 - 1));
        // Check if the buffer is within the required bits
        if Self::check_bits(mapper, source, len, bits) == false {
            None
        } else if bytes <= PAGE_SIZE && phys <= u64::MAX - (bytes as u64 - 1) && phys + (bytes as u64
            - 1) == end_phys {
            // The data is smaller than a page worth, and falls on a
            // contiguous pair of pages
            Some(DMABuffer { source, buffer_len: bytes, phys: phys })
        } else {
            None
        }
    }

    /// A contiguous buffer as `new_contig` makes it, over memory that is
    /// written to.
    pub fn new_contig_mut(mapper: &Mapper, source: u64, len: usize, bits: u8) -> (buffer: Option<
        DMABuffer,
    >)
        requires
            mapper.wf(),
            len > 0,
            source + len <= BUFFER_LIMIT,
        ensures
            buffer == if fits_bits(*mapper, source, len, bits) && Self::is_contiguous(
                *mapper,
                source,
                len,
            ) {
                Some(DMABuffer { source, buffer_len: len, phys: phys_of(*mapper, source) })
            } else {
                None
            },
    {
        DMABuffer::new_contig(mapper, source, len, bits)
    }

    /// Returns a walk over the contiguous physical ranges of the buffer.
    pub fn phys_ranges(&self) -> (ranges: Ranges)
        ensures
            ranges.address == self.source,
            ranges.remaining == self.buffer_len,
    {
        Ranges { address: self.source, remaining: self.buffer_len }
    }

    /// The number of bytes of the buffer.
    pub fn len(&self) -> (len: usize)
        ensures
            len == self.buffer_len,
    {
        self.buffer_len
    }

    /// Whether the buffer still starts at the physical address at which it
    /// started when it was made.
    pub fn update_source(&self, mapper: &Mapper) -> (same: bool)
        requires
            mapper.wf(),
            self.source < BUFFER_LIMIT,
        ensures
            same == (self.phys == phys_of(*mapper, self.source)),
    {
        self.phys == get_phys(mapper, self.source)
    }
}

/// A walk over the pieces of a buffer between the ends of pages: the
/// virtual address of the next piece, and the number of bytes that are
/// left.
#[derive(Debug, Clone, Copy, PartialEq, Eq, Structural)]
pub struct Ranges {
    pub address: u64,
    pub remaining: usize,
}

impl Ranges {
    /// Hands out the next piece, as its physical address and its length:
    /// the piece goes up to the end of its page or to the end of the
    /// buffer, whichever comes first.
    pub fn next(&mut self, mapper: &Mapper) -> (piece: Option<(u64, usize)>)
        requires
            mapper.wf(),
            old(self).address + old(self).remaining <= BUFFER_LIMIT,
            old(self).address < BUFFER_LIMIT,
        ensures
            old(self).remaining == 0 ==> piece.is_none() && *final(self) == *old(self),
            old(self).remaining > 0 ==> {
                let rem = 4096 - old(self).address % 4096;
                let len = if rem < old(self).remaining {
                    rem
                } else {
                    old(self).remaining as int
                };
                &&& piece == Some((phys_of(*mapper, old(self).address), len as usize))
                &&& final(self).address == old(self).address + len
                &&& final(self).remaining == old(self).remaining - len
                &&& len > 0
            },
    {
        if self.remaining == 0 {
            None
        } else {
            let rem = (PAGE_SIZE as u64 - self.address % (PAGE_SIZE as u64)) as usize;
            let len = if rem < self.remaining {
                rem
            } else {
                self.remaining
            };
            let paddr = get_phys(mapper, self.address);
            self.address = self.address + len as u64;
            self.remaining = self.remaining - len;
            Some((paddr, len))
        }
    }

    /// The byte before the one at `address` lies right before it in
    /// physical memory too.
    pub open spec fn follows(mapper: Mapper, address: u64) -> bool {
        address > 0 && phys_of(mapper, address) > 0 && phys_of(mapper, (address - 1) as u64) == phys_of(
            mapper,
            address,
        ) - 1
    }

    /// The length to which the last `len` bytes of a buffer of `full_len`
    /// bytes at `address` grow when the pages before them are taken in, one
    /// after the other, as long as each lies right before the next in
    /// physical memory too.
    pub open spec fn back_len(mapper: Mapper, address: u64, full_len: int, len: int) -> int
        decreases full_len - len,
    {
        if 0 < len < full_len && Self::follows(mapper, (address + full_len - len) as u64) {
            Self::back_len(
                mapper,
                address,
                full_len,
                if full_len - len > 4096 {
                    len + 4096
                } else {
                    full_len
                },
            )
        } else {
            len
        }
    }

    /// Hands out the last piece, as its physical address and its length.
    ///
    /// The piece starts as the bytes of the buffer that lie in the page of
    /// its last byte. As long as the page before the piece lies right
    /// before it in physical memory too, that page, or what the buffer has
    /// of it, is taken into the piece.
    pub fn next_back(&mut self, mapper: &Mapper) -> (piece: Option<(u64, usize)>)
        requires
            mapper.wf(),
            old(self).address + old(self).remaining <= BUFFER_LIMIT,
            old(self).address < BUFFER_LIMIT,
        ensures
            final(self).address == old(self).address,
            old(self).remaining == 0 ==> piece.is_none() && *final(self) == *old(self),
            old(self).remaining > 0 ==> {
                let in_last_page = (old(self).address + old(self).remaining - 1) % 4096 + 1;
                let first = if in_last_page < old(self).remaining {
                    in_last_page
                } else {
                    old(self).remaining as int
                };
                let len = Self::back_len(*mapper, old(self).address, old(self).remaining as int, first);
                &&& 0 < first <= len <= old(self).remaining
                &&& piece == Some(
                    (phys_of(*mapper, (old(self).address + old(self).remaining - len) as u64), len as usize),
                )
                &&& final(self).remaining == old(self).remaining - len
            },
    {
        if self.remaining == 0 {
            None
        } else {
            let full_len = self.remaining;
            // the address of the last byte
            let last = self.address + (full_len as u64 - 1);
            let min_len = (last % (PAGE_SIZE as u64)) as usize + 1;
            let mut len = if min_len < full_len {
                min_len
            } else {
                full_len
            };
            let ghost first = len;
            let mut paddr = get_phys(mapper, self.address + (full_len - len) as u64);
            // Merge physically contiguous pages
            while len < full_len && paddr > 0 && get_phys(
                mapper,
                self.address + ((full_len - len) as u64 - 1),
            ) == paddr - 1
                invariant
                    mapper.wf(),
                    *self == *old(self),
                    full_len == self.remaining,
                    self.address + full_len <= BUFFER_LIMIT,
                    0 < first <= len <= full_len,
                    len < full_len ==> (self.address + full_len - len) % 4096 == 0,
                    paddr == phys_of(*mapper, (self.address + full_len - len) as u64),
                    Self::back_len(*mapper, self.address, full_len as int, len as int) == Self::back_len(
                        *mapper,
                        self.address,
                        full_len as int,
                        first as int,
                    ),
                decreases full_len - len,
            {
                let step = if full_len - len > PAGE_SIZE {
                    PAGE_SIZE
                } else {
                    full_len - len
                };
                proof {
                    lemma_page_before(*mapper, (self.address + full_len - len) as u64, step as int);
                }
                paddr = paddr - step as u64;
                len = len + step;
            }
            self.remaining = full_len - len;
            Some((paddr, len))
        }
    }
}

/// Where the last byte of a page lies right before the first byte of the
/// next page in physical memory too, so does every byte of that page: it
/// lies as far before that first byte in physical memory as it does in
/// virtual memory.
proof fn lemma_page_before(mapper: Mapper, address: u64, distance: int)
    requires
        address % 4096 == 0,
        1 <= distance <= 4096,
        Ranges::follows(mapper, address),
    ensures
        distance <= address,
        phys_of(mapper, (address - distance) as u64) == phys_of(mapper, address) - distance,
{
    let page = Page { number: address / 4096 };
    let before = Page { number: ((address - 1) as u64) / 4096 };
    assert(((address - distance) as u64) / 4096 == before.number);
    assert(((address - distance) as u64) % 4096 == 4096 - distance);
    assert(((address - 1) as u64) % 4096 == 4095);
    // The address is the first of its page, so its physical address is a
    // multiple of the page size, and the byte before it is mapped.
    assert(phys_of(mapper, address) % 4096 == 0);
}

} // verus!
