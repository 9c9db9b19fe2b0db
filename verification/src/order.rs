//! The total order of IEEE 754 single-precision values, read off their bit
//! patterns.

use vstd::prelude::*;

verus! {

/// The first bit pattern with the sign bit set: negative zero.
pub const SIGN_BIT: u32 = 0x8000_0000;

/// Where a single-precision bit pattern stands in the total order of IEEE 754.
///
/// Patterns without the sign bit stand at their own value, so positive zero is
/// 0 and every positive number is above it. Patterns with the sign bit stand
/// below zero, the larger magnitude the lower, so negative zero is -1.
pub open spec fn order_rank(bits: u32) -> int {
    if bits < SIGN_BIT {
        bits as int
    } else {
        SIGN_BIT - 1 - bits
    }
}

/// Computes [`order_rank`].
pub fn order_key(bits: u32) -> (key: i64)
    ensures
        key == order_rank(bits),
{
    if bits < SIGN_BIT {
        bits as i64
    } else {
        (SIGN_BIT as i64) - 1 - (bits as i64)
    }
}

/// Distinct bit patterns have distinct ranks: the order is total.
pub proof fn lemma_order_rank_injective(a: u32, b: u32)
    ensures
        order_rank(a) == order_rank(b) <==> a == b,
{
}

/// A rank is positive exactly for the patterns strictly between positive zero
/// and the sign bit: the positive values.
pub proof fn lemma_order_rank_positive(bits: u32)
    ensures
        order_rank(bits) > 0 <==> 0 < bits < SIGN_BIT,
{
}

} // verus!
