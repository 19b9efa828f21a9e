//! Sizes and limits shared by the queue, the PRP builder and the dispatcher.

use vstd::arithmetic::power2::pow2;
use vstd::bits::lemma_u32_shl_is_mul;
use vstd::prelude::*;

verus! {

/// Size of a controller memory page, in bytes.
pub const NVME_CTRL_PAGE_SIZE: usize = 4096;

/// Number of 64-bit entries held by one PRP list page.
pub const PRP_ENTRIES_PER_PAGE: usize = 512;

/// Largest transfer the driver advertises, in KiB.
pub const NVME_MAX_KB_SZ: usize = 4096;

/// Largest number of scatter-gather segments per request.
pub const NVME_MAX_SEGS: usize = 127;

/// Number of PRP list pages a maximum-size transfer can need.
pub const NPAGES_PRP: usize = 3;

/// `ceil(a / b)`.
pub open spec fn spec_div_round_up(a: int, b: int) -> int {
    (a + (b - 1)) / b
}

/// Rounds `a / b` up to the next integer.
pub fn div_round_up(a: usize, b: usize) -> (r: usize)
    requires
        b > 0,
        a + (b - 1) <= usize::MAX,
    ensures
        r == spec_div_round_up(a as int, b as int),
{
    (a + (b - 1)) / b
}

/// Number of PRP list pages needed to describe a maximum-size transfer that
/// starts anywhere within a page.
pub fn npages_prp() -> (r: usize)
    ensures
        r == spec_div_round_up(
            8 * spec_div_round_up(
                (NVME_MAX_KB_SZ * 1024 + NVME_CTRL_PAGE_SIZE) as int,
                NVME_CTRL_PAGE_SIZE as int,
            ),
            (NVME_CTRL_PAGE_SIZE - 8) as int,
        ),
        r == NPAGES_PRP,
{
    let nprps = div_round_up(NVME_MAX_KB_SZ * 1024 + NVME_CTRL_PAGE_SIZE, NVME_CTRL_PAGE_SIZE);
    div_round_up(8 * nprps, NVME_CTRL_PAGE_SIZE - 8)
}

/// Minimum memory page size field (CAP.MPSMIN) of the capability register.
pub open spec fn cap_mps_min(cap: u64) -> nat {
    ((cap >> 48u64) & 0xfu64) as nat
}

/// Largest transfer in 512-byte blocks for a controller page size of
/// `2^(12 + MPSMIN)` and a maximum data transfer size field `mdts`, when it
/// fits in 32 bits. `mdts == 0` means that the controller sets no limit.
pub open spec fn spec_max_blocks(cap: u64, mdts: u8) -> Option<u32> {
    if mdts == 0 || mdts >= 32 {
        None
    } else {
        let v = pow2(cap_mps_min(cap) + 3) * pow2(mdts as nat);
        if v <= u32::MAX {
            Some(v as u32)
        } else {
            None
        }
    }
}

/// Computes the largest transfer, in 512-byte blocks, allowed by the
/// capability register `cap` and the identify field `mdts`.
pub fn calculate_max_blocks(cap: u64, mdts: u8) -> (r: Option<u32>)
    ensures
        r == spec_max_blocks(cap, mdts),
{
    if mdts == 0 {
        return None;
    }
    let mps_min = ((cap >> 48u64) & 0xfu64) as u32;
    assert(((cap >> 48u64) & 0xfu64) <= 15) by (bit_vector);
    let shift = mps_min + 3;
    if mdts as u32 >= 32 {
        return None;
    }
    proof {
        vstd::bits::lemma_u32_pow2_no_overflow(shift as nat);
        vstd::bits::lemma_u32_pow2_no_overflow(mdts as nat);
        lemma_u32_shl_is_mul(1u32, shift);
        lemma_u32_shl_is_mul(1u32, mdts as u32);
    }
    let ps_in_blocks = 1u32 << shift;
    let limit = 1u32 << (mdts as u32);
    ps_in_blocks.checked_mul(limit)
}

} // verus!

verus! {

/// Errors of the data path.
#[derive(Clone, Copy, Debug, PartialEq, Eq, Structural)]
pub enum NvmeError {
    /// A DMA mapping or a PRP list page could not be had.
    NoMemory,
    /// The request cannot be carried out as described: an unsupported
    /// operation, a malformed scatter list, or a status reported by the device.
    Io,
}

} // verus!
