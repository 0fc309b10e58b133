//! Shared numeric plumbing of the brush pipelines: dynamic-uniform-ring
//! slot alignment.

use vstd::prelude::*;

verus! {

/// Whether `a` is a power of two.
pub open spec fn is_pow2_u64(a: u64) -> bool {
    a > 0 && a & ((a - 1) as u64) == 0
}

/// Round `value` up to the next multiple of `alignment`, by mask. Exact for
/// a power-of-two `alignment` (which every GPU offset alignment is): the
/// result is then the least multiple of `alignment` not below `value`.
pub fn align_up(value: u64, alignment: u64) -> (r: u64)
    requires
        alignment > 0,
        value + alignment - 1 <= u64::MAX,
    ensures
        r == (((value + alignment - 1) as u64) & !((alignment - 1) as u64)),
        is_pow2_u64(alignment) ==> r & ((alignment - 1) as u64) == 0 && value <= r && r < value
            + alignment,
{
    let r = (value + (alignment - 1)) & !(alignment - 1);
    proof {
        if is_pow2_u64(alignment) {
            assert(r & ((alignment - 1) as u64) == 0 && value <= r && r < value + alignment)
                by (bit_vector)
                requires
                    alignment > 0,
                    alignment & ((alignment - 1) as u64) == 0,
                    value + alignment - 1 <= 0xffff_ffff_ffff_ffffu64,
                    r == (((value + alignment - 1) as u64) & !((alignment - 1) as u64)),
            ;
        }
    }
    r
}

} // verus!
