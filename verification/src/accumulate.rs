//! The arithmetic that every strategy shares: the depth of water on one
//! column, and adding it to a running total, both without overflow.
//!
//! The difference of two elevations can be as large as `u64::MAX`, which no
//! signed 64-bit subtraction can hold, so depths are taken in 128 bits. The
//! total of many columns can exceed 64 bits; it is kept modulo `2^64`.

use crate::model::low_64_bits;
use vstd::math::max;
use vstd::prelude::*;

verus! {

/// The depth of water on a column of elevation `ground` under a surface at
/// `level`: their difference, or nothing where the ground lies above.
pub fn depth(level: i64, ground: i64) -> (deep: u64)
    ensures
        deep == max(0, level - ground),
{
    if level > ground {
        (level as i128 - ground as i128) as u64
    } else {
        0
    }
}

/// Adds the water of one more column to a running total.
pub fn pour(total: u64, more: u64) -> (sum: u64)
    ensures
        sum == low_64_bits(total + more),
{
    total.wrapping_add(more)
}

/// One step of the running-maximum fold. The stair is the highest elevation
/// seen so far; a column at `ground` raises it if it is higher, and then
/// holds water up to the stair.
pub fn fold_step(stair: (i64, u64), ground: i64) -> (next: (i64, u64))
    ensures
        next.0 == max(stair.0 as int, ground as int),
        next.1 == low_64_bits(stair.1 + (next.0 - ground)),
{
    let stepsize = ground.max(stair.0);
    (stepsize, pour(stair.1, depth(stepsize, ground)))
}

} // verus!
