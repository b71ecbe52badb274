//! Rounding of byte offsets to block boundaries.

use vstd::prelude::*;

verus! {

/// The least multiple of the block size that is not below `x`.
pub open spec fn round_up_4k(x: int) -> int {
    ((x + 4095) / 4096) * 4096
}

/// Rounds `x` up to the next block boundary, or reports that the boundary
/// lies beyond the 64-bit range.
pub fn try_round_up_4k(x: u64) -> (aligned: Option<u64>)
    ensures
        aligned matches Some(v) ==> v as int == round_up_4k(x as int),
        aligned is Some <==> round_up_4k(x as int) <= u64::MAX,
{
    match x.checked_add(4095) {
        Some(bumped) => {
            let rounded: u64 = bumped / 4096 * 4096;
            Some(rounded)
        },
        None => {
            None
        },
    }
}

/// Rounding up to a block boundary gives a multiple of the block size that
/// is not below the argument.
pub proof fn lemma_round_up_4k(x: int)
    requires
        0 <= x,
    ensures
        round_up_4k(x) % 4096 == 0,
        x <= round_up_4k(x) < x + 4096,
{
}

} // verus!
