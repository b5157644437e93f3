//! The two-pointer sweep: one pass, constant extra space.
//!
//! Two indices start at the ends of the terrain. At every step the lower of
//! the two end columns is settled against the pool height, the highest
//! elevation settled so far, and its index moves inward. The sweep ends when
//! the indices meet, on a highest column of the terrain.

use crate::accumulate::{depth, pour};
use crate::inward::{
    inward_window, lemma_inward_pass_left, lemma_inward_pass_right, lemma_inward_start,
    lemma_settled_all, passed_top, settled_water,
};
use crate::model::{lemma_trapped_nonnegative, low_64_bits, reported, trapped};
use vstd::prelude::*;

verus! {

/// The volume of water that `height` traps, by the two-pointer sweep.
///
/// The result is the trapped volume whenever that fits in 64 bits, and its
/// low 64 bits otherwise. An empty terrain traps nothing.
pub fn trap(height: &[i64]) -> (water: u64)
    ensures
        water == reported(height@),
        trapped(height@) <= u64::MAX ==> water == trapped(height@),
{
    proof {
        lemma_trapped_nonnegative(height@);
    }
    if height.len() == 0 {
        return 0;
    }
    let mut left: usize = 0;
    let mut right: usize = height.len() - 1;
    let mut pool_height = i64::MIN;
    let mut water = 0u64;
    proof {
        lemma_inward_start(height@);
    }
    while left < right
        invariant
            inward_window(height@, left as int, right as int),
            pool_height == passed_top(height@, left as int, right as int),
            water == low_64_bits(settled_water(height@, left as int, right as int)),
        decreases right - left,
    {
        pool_height = pool_height.max(height[left].min(height[right]));
        if height[left] <= height[right] {
            proof {
                lemma_inward_pass_left(height@, left as int, right as int);
            }
            water = pour(water, depth(pool_height, height[left]));
            left += 1;
        } else {
            proof {
                lemma_inward_pass_right(height@, left as int, right as int);
            }
            water = pour(water, depth(pool_height, height[right]));
            right -= 1;
        }
    }
    proof {
        lemma_settled_all(height@, left as int);
    }
    water
}

/// [`trap`] for a terrain that the caller gives away.
pub fn trap_v(height: Vec<i64>) -> (water: u64)
    ensures
        water == reported(height@),
        trapped(height@) <= u64::MAX ==> water == trapped(height@),
{
    trap(height.as_slice())
}

/// The two-pointer sweep reading each end column once per step.
///
/// Both indices stay inside the terrain for as long as the sweep runs: the
/// left one never passes the right one, and the right one starts on the last
/// column. That is part of what is proved here, so no access can fail.
///
/// The result is the trapped volume whenever that fits in 64 bits, and its
/// low 64 bits otherwise. An empty terrain traps nothing.
pub fn trap_unsafe(height: &[i64]) -> (water: u64)
    ensures
        water == reported(height@),
        trapped(height@) <= u64::MAX ==> water == trapped(height@),
{
    proof {
        lemma_trapped_nonnegative(height@);
    }
    if height.len() == 0 {
        return 0;
    }
    let mut left: usize = 0;
    let mut right: usize = height.len() - 1;
    let mut pool_height = i64::MIN;
    let mut water = 0u64;
    proof {
        lemma_inward_start(height@);
    }
    while left < right
        invariant
            inward_window(height@, left as int, right as int),
            pool_height == passed_top(height@, left as int, right as int),
            water == low_64_bits(settled_water(height@, left as int, right as int)),
        decreases right - left,
    {
        let leftv = height[left];
        let rightv = height[right];
        pool_height = pool_height.max(leftv.min(rightv));
        if leftv <= rightv {
            proof {
                lemma_inward_pass_left(height@, left as int, right as int);
            }
            water = pour(water, depth(pool_height, leftv));
            left += 1;
        } else {
            proof {
                lemma_inward_pass_right(height@, left as int, right as int);
            }
            water = pour(water, depth(pool_height, rightv));
            right -= 1;
        }
    }
    proof {
        lemma_settled_all(height@, left as int);
    }
    water
}

} // verus!
