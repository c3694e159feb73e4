//! The hash by which processes are found from their numbers.

use vstd::prelude::*;

verus! {

/// The number of bits of a hash of a process number.
pub const HASH_SHIFT: u32 = 10;

/// The number of lists that the processes are spread over.
pub const HASH_LIST_SIZE: u32 = 1024;

pub const GOLDEN_RATIO_PRIME_32: u32 = 0x9e370001;

/// The length of the name of a process.
pub const PROC_NAME_LEN: usize = 15;

/// The largest number of processes.
pub const MAX_PROCESS: usize = 4096;

/// The bound of the process numbers.
pub const MAX_PID: usize = 8192;

/// The hash of `val` in `bits` bits: the highest `bits` bits of the lower
/// 32 bits of the product of `val` and the golden ratio prime.
pub open spec fn spec_hash32(val: u32, bits: u32) -> u32 {
    ((((val as nat) * (GOLDEN_RATIO_PRIME_32 as nat)) % 0x1_0000_0000) as u32) >> ((32 - bits) as u32)
}

/// The hash of `val` in `bits` bits.
pub fn hash32(val: u32, bits: u32) -> (hash: u32)
    requires
        1 <= bits <= 32,
    ensures
        hash == spec_hash32(val, bits),
        bits < 32 ==> hash < (1u32 << bits),
{
    let hash = val.wrapping_mul(GOLDEN_RATIO_PRIME_32);
    let shift = 32 - bits;
    assert(bits < 32 && shift == 32 - bits ==> hash >> shift < (1u32 << bits)) by (bit_vector);
    assert(hash == (((val as nat) * (GOLDEN_RATIO_PRIME_32 as nat)) % 0x1_0000_0000) as u32);
    hash >> shift
}

/// The list in which the process with the number `x` is kept.
pub fn pid_hashfn(x: u32) -> (hash: u32)
    ensures
        hash == spec_hash32(x, HASH_SHIFT),
        hash < HASH_LIST_SIZE,
{
    assert((1u32 << 10) == 1024) by (bit_vector);
    hash32(x, HASH_SHIFT)
}

} // verus!
